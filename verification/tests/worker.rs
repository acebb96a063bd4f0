use dna_greendamn::mem::Module;
use dna_greendamn::uncensor::State;
use dna_greendamn::worker::{attach, report, run, wait_for_module, Command, Notice, Phase, Wait};

const GAME: Module = Module { base: 0x1_4000_0000, size: 0x800_0000 };

fn line(c: Command<dna_greendamn::buf::Buf>) -> String {
    match c {
        Command::Log(b) => String::from_utf8(b.as_bytes().to_vec()).unwrap(),
        other => panic!("{:?}", other),
    }
}

#[test]
fn module_is_waited_for_half_a_minute() {
    assert_eq!(wait_for_module(Some(GAME), 30_000), Wait::Ready { module: GAME });
    assert_eq!(wait_for_module(None, 0), Wait::Again { waited: 500 });
    assert_eq!(wait_for_module(None, 29_500), Wait::Again { waited: 30_000 });
    assert_eq!(wait_for_module(None, 30_000), Wait::GiveUp);
}

#[test]
fn worker_gives_up_after_sixty_one_looks() {
    let s = State::new();
    let mut p = Phase::Start;
    assert!(matches!(run(&mut p, Notice::Carried, &s), Command::OpenLog));
    assert!(matches!(run(&mut p, Notice::Opened(true), &s), Command::Find));
    let mut looks = 1;
    loop {
        match run(&mut p, Notice::Found(None), &s) {
            Command::Sleep { ms } => assert_eq!(ms, 500),
            c => {
                assert_eq!(line(c), "Not loaded by EM-Win64-Shipping.exe");
                break;
            }
        }
        assert!(matches!(run(&mut p, Notice::Carried, &s), Command::Find));
        looks += 1;
    }
    assert_eq!(looks, 61);
    assert!(matches!(run(&mut p, Notice::Carried, &s), Command::Exit));
    assert!(matches!(run(&mut p, Notice::Carried, &s), Command::Exit));
}

#[test]
fn worker_ends_without_a_log() {
    let s = State::new();
    let mut p = Phase::Opening;
    assert!(matches!(run(&mut p, Notice::Opened(false), &s), Command::Exit));
    assert_eq!(p, Phase::Over);
}

#[test]
fn worker_attaches_ticks_and_reports() {
    let s = State::new();
    let mut p = Phase::Seeking { waited: 500 };
    let told = line(run(&mut p, Notice::Found(Some(GAME)), &s));
    assert_eq!(told, "EM-Win64-Shipping.exe @ 0x140000000 size=0x8000000");
    assert!(matches!(run(&mut p, Notice::Carried, &s), Command::Clock));
    assert!(matches!(run(&mut p, Notice::Time(1_000), &s), Command::Clock));
    assert!(matches!(run(&mut p, Notice::Time(60_999), &s), Command::Tick { module: GAME }));
    assert!(matches!(run(&mut p, Notice::Carried, &s), Command::Sleep { ms: 2_500 }));
    assert!(matches!(run(&mut p, Notice::Carried, &s), Command::Clock));
    assert!(matches!(run(&mut p, Notice::Time(61_000), &s), Command::Tick { module: GAME }));
    assert_eq!(
        line(run(&mut p, Notice::Carried, &s)),
        "called 0 times, cameras 0, known 0, walk 0ms x0, func MISSING"
    );
    assert!(matches!(run(&mut p, Notice::Carried, &s), Command::Sleep { ms: 2_500 }));
    assert_eq!(p, Phase::Sleeping { module: GAME, last_report: 61_000 });
}

#[test]
fn notice_of_another_kind_has_the_command_given_again() {
    let s = State::new();
    let mut p = Phase::Arming { module: GAME };
    assert!(matches!(run(&mut p, Notice::Carried, &s), Command::Clock));
    assert_eq!(p, Phase::Arming { module: GAME });
}

#[test]
fn lines_of_the_worker() {
    assert_eq!(
        attach(&Module { base: 0, size: 0xABC }).as_bytes(),
        b"EM-Win64-Shipping.exe @ 0x0 size=0xABC"
    );
    assert!(report(&State::new()).as_bytes().iter().all(|b| *b < 0x80));
}
