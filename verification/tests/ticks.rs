use std::collections::BTreeMap;

use dna_greendamn::mem::{Memory, Module};
use dna_greendamn::model::{Action, Described};
use dna_greendamn::uncensor::{
    cam_calls, cams_last, chunk_at, chunks_ptr, count, describe, func_ok, is_disable_func, item_at,
    known, name_tag, remember_cam, scans, tick, walk_ms, State, Tick,
};

const BASE: usize = 0x1_4000_0000;
const GAME: Module = Module { base: BASE, size: 0x800_0000 };
const POOL: usize = BASE + 0x0747CDC0;
const ARRAY: usize = BASE + 0x07127C80;
const CHUNKS: usize = 0x2000_0000;
const VTABLE: usize = BASE + 0x1000;
const TARGET: usize = BASE + 0x2000;
const NAMES: usize = 0x3000_0000;

const CAM_CLASS: usize = 0x4000_0000;
const FUNC_CLASS: usize = 0x4000_1000;
const PAWN_CLASS: usize = 0x4000_2000;

const CAM_NAME: u32 = 0x10;
const FUNC_NAME: u32 = 0x40;
const PAWN_NAME: u32 = 0x70;
const DISABLE_NAME: u32 = 0xA0;
const ENABLE_NAME: u32 = 0xD0;

/// A game in memory.
struct Game {
    bytes: BTreeMap<usize, u8>,
}

impl Game {
    fn new() -> Game {
        let mut g = Game { bytes: BTreeMap::new() };
        g.u64(POOL + 0x10, NAMES as u64);
        g.name(CAM_NAME, b"PlayerCameraComponent");
        g.name(FUNC_NAME, b"Function");
        g.name(PAWN_NAME, b"Pawn");
        g.name(DISABLE_NAME, b"DisableCameraDither");
        g.name(ENABLE_NAME, b"EnableCameraDither");
        g.class(CAM_CLASS, CAM_NAME);
        g.class(FUNC_CLASS, FUNC_NAME);
        g.class(PAWN_CLASS, PAWN_NAME);
        g.u64(VTABLE + 0x44 * 8, TARGET as u64);
        g.objects(&[]);
        g
    }

    fn put(&mut self, at: usize, bytes: &[u8]) {
        for (i, b) in bytes.iter().enumerate() {
            self.bytes.insert(at + i, *b);
        }
    }

    fn u32(&mut self, at: usize, v: u32) {
        self.put(at, &v.to_le_bytes());
    }

    fn u64(&mut self, at: usize, v: u64) {
        self.put(at, &v.to_le_bytes());
    }

    fn name(&mut self, id: u32, text: &[u8]) {
        let entry = NAMES + id as usize * 2;
        self.put(entry, &((text.len() as u16) * 2).to_le_bytes());
        self.put(entry + 2, text);
    }

    fn class(&mut self, at: usize, name: u32) {
        self.u64(at, VTABLE as u64);
        self.u32(at + 0x18, name);
    }

    fn object(&mut self, at: usize, class: usize, name: u32) {
        self.put(at, &[0; 0x28]);
        self.u64(at, VTABLE as u64);
        self.u64(at + 0x10, class as u64);
        self.u32(at + 0x18, name);
    }

    /// Fills the array, of one chunk.
    fn objects(&mut self, objects: &[usize]) {
        let chunk = 0x2100_0000;
        self.u64(ARRAY, CHUNKS as u64);
        self.u32(ARRAY + 0x14, objects.len() as u32);
        self.u32(ARRAY + 0x1C, 1);
        self.u64(CHUNKS, chunk as u64);
        for (i, obj) in objects.iter().enumerate() {
            self.u64(chunk + i * 0x18, *obj as u64);
        }
    }

    fn read(&self, at: usize, len: usize) -> Vec<u8> {
        let mut out = Vec::new();
        while out.len() < len {
            match self.bytes.get(&(at + out.len())) {
                Some(b) => out.push(*b),
                None => break,
            }
        }
        out
    }

    /// Everything that a look at one object may read.
    fn all(&self, reads: &[(usize, usize)]) -> Memory {
        let mut m = Memory::new();
        for (at, len) in reads {
            m.record(*at, *len, self.read(*at, *len));
        }
        m
    }
}

/// What a tick had done: its calls and its log lines.
struct Done {
    calls: Vec<(usize, usize, usize)>,
    lines: Vec<String>,
    clocks: usize,
}

/// Runs a tick to its end; the clock moves by 7 at each look.
fn run(state: &mut State, game: &Game) -> Done {
    run_at(state, game, 1000, 1007)
}

/// Runs a tick to its end, with the time at the first look and at the next ones.
fn run_at(state: &mut State, game: &Game, start: u64, end: u64) -> Done {
    let mut done = Done { calls: Vec::new(), lines: Vec::new(), clocks: 0 };
    let mut t = Tick::new(GAME);
    loop {
        match tick(state, &mut t) {
            Action::Proceed => {}
            Action::Read { addr, len } => t.answer(addr, len, game.read(addr, len)),
            Action::Clock => {
                t.tell_time(if done.clocks == 0 { start } else { end });
                done.clocks += 1;
            }
            Action::Invoke { target, cam, func } => done.calls.push((target, cam, func)),
            Action::Log(line) => {
                done.lines.push(String::from_utf8(line.as_bytes().to_vec()).unwrap())
            }
            Action::Done => return done,
        }
    }
}

const CAM_A: usize = 0x7000_0000;
const CAM_B: usize = 0x7000_0100;
const FUNC: usize = 0x7100_0000;
const OTHER_FUNC: usize = 0x7100_0100;
const PAWN: usize = 0x7200_0000;

/// Two cameras around the function.
fn small_game() -> Game {
    let mut g = Game::new();
    g.object(CAM_A, CAM_CLASS, 0);
    g.object(CAM_B, CAM_CLASS, 0);
    g.object(FUNC, FUNC_CLASS, DISABLE_NAME);
    g.object(OTHER_FUNC, FUNC_CLASS, ENABLE_NAME);
    g.object(PAWN, PAWN_CLASS, 0);
    g.objects(&[PAWN, CAM_A, 0, OTHER_FUNC, FUNC, CAM_B]);
    g
}

#[test]
fn new_state_knows_nothing() {
    let s = State::new();
    assert_eq!(cam_calls(&s), 0);
    assert_eq!(cams_last(&s), 0);
    assert_eq!(known(&s), 0);
    assert_eq!(walk_ms(&s), 0);
    assert_eq!(scans(&s), 0);
    assert!(!func_ok(&s));
}

#[test]
fn first_tick_scans_and_finds_function_and_cameras() {
    let g = small_game();
    let mut s = State::new();
    let d = run(&mut s, &g);
    assert_eq!(d.lines, vec![
        "camera 0x70000000 'PlayerCameraComponent'".to_string(),
        "Camera UFunction acquired".to_string(),
    ]);
    assert_eq!(d.calls, vec![(TARGET, CAM_A, FUNC), (TARGET, CAM_B, FUNC)]);
    assert_eq!(d.clocks, 2);
    assert_eq!(cams_last(&s), 2);
    assert_eq!(known(&s), 2);
    assert_eq!(scans(&s), 1);
    assert_eq!(walk_ms(&s), 7);
    assert_eq!(cam_calls(&s), 2);
    assert!(func_ok(&s));
}

#[test]
fn second_tick_calls_every_camera_and_does_not_scan() {
    let g = small_game();
    let mut s = State::new();
    run(&mut s, &g);
    let d = run(&mut s, &g);
    assert_eq!(d.calls, vec![(TARGET, CAM_A, FUNC), (TARGET, CAM_B, FUNC)]);
    assert!(d.lines.is_empty());
    assert_eq!(d.clocks, 0);
    assert_eq!(scans(&s), 1);
    assert_eq!(cam_calls(&s), 4);
}

#[test]
fn camera_before_the_function_is_called_by_the_same_scan() {
    let mut g = Game::new();
    g.object(CAM_A, CAM_CLASS, 0);
    g.object(FUNC, FUNC_CLASS, DISABLE_NAME);
    g.objects(&[CAM_A, FUNC]);
    let mut s = State::new();
    let d = run(&mut s, &g);
    assert_eq!(d.calls, vec![(TARGET, CAM_A, FUNC)]);
    assert_eq!(d.lines, vec![
        "camera 0x70000000 'PlayerCameraComponent'".to_string(),
        "Camera UFunction acquired".to_string(),
    ]);
    assert_eq!(cam_calls(&s), 1);
    assert_eq!(known(&s), 1);
    assert!(func_ok(&s));
}

#[test]
fn many_cameras_before_the_function_are_called_once_and_in_order() {
    let mut g = small_game();
    let mut objects = Vec::new();
    for i in 0..70 {
        let cam = 0x7800_0000 + i * 0x100;
        g.object(cam, CAM_CLASS, 0);
        objects.push(cam);
    }
    let mut want: Vec<(usize, usize, usize)> = Vec::new();
    for cam in &objects {
        want.push((TARGET, *cam, FUNC));
    }
    want.push((TARGET, CAM_B, FUNC));
    objects.push(FUNC);
    objects.push(CAM_B);
    g.objects(&objects);
    let mut s = State::new();
    let d = run(&mut s, &g);
    assert_eq!(d.calls, want);
    assert_eq!(cam_calls(&s), 71);
    assert_eq!(cams_last(&s), 71);
    assert_eq!(scans(&s), 1);
}

#[test]
fn cameras_in_chunks_before_the_function_are_called() {
    let mut g = Game::new();
    g.object(CAM_A, CAM_CLASS, 0);
    g.object(CAM_B, CAM_CLASS, 0);
    g.object(FUNC, FUNC_CLASS, DISABLE_NAME);
    g.objects(&[0, CAM_A]);
    g.u32(ARRAY + 0x14, 0x2_0002);
    g.u32(ARRAY + 0x1C, 3);
    g.u64(CHUNKS + 8, 0);
    g.u64(CHUNKS + 16, 0x2200_0000);
    g.u64(0x2200_0000, CAM_B as u64);
    g.u64(0x2200_0018, FUNC as u64);
    let mut s = State::new();
    let d = run(&mut s, &g);
    assert_eq!(d.calls, vec![(TARGET, CAM_A, FUNC), (TARGET, CAM_B, FUNC)]);
    assert_eq!(cam_calls(&s), 2);
}

#[test]
fn first_function_of_the_array_is_the_one_called() {
    let mut g = small_game();
    g.object(OTHER_FUNC, FUNC_CLASS, DISABLE_NAME);
    g.objects(&[CAM_A, FUNC, OTHER_FUNC, CAM_B]);
    let mut s = State::new();
    let d = run(&mut s, &g);
    assert_eq!(d.calls, vec![(TARGET, CAM_A, FUNC), (TARGET, CAM_B, FUNC)]);
}

#[test]
fn camera_is_logged_once() {
    let mut g = small_game();
    g.objects(&[CAM_A]);
    let mut s = State::new();
    let d = run(&mut s, &g);
    assert_eq!(d.lines, vec!["camera 0x70000000 'PlayerCameraComponent'".to_string()]);
    g.u64(CAM_A, 0);
    g.objects(&[CAM_B]);
    let d = run(&mut s, &g);
    assert!(d.lines.is_empty());
    assert_eq!(cams_last(&s), 1);
    assert_eq!(known(&s), 1);
}

#[test]
fn scan_takes_the_time_between_two_looks_at_the_clock() {
    let g = small_game();
    for (start, end, ms) in [(1000, 1000, 0), (5, 1234, 1229), (7, 3, u64::MAX - 3)] {
        let mut s = State::new();
        assert_eq!(run_at(&mut s, &g, start, end).clocks, 2);
        assert_eq!(walk_ms(&s), ms);
        assert_eq!(run_at(&mut s, &g, 1, 2).clocks, 0);
        assert_eq!(walk_ms(&s), ms);
    }
}

#[test]
fn death_of_a_camera_that_left_the_array_has_it_scan() {
    let mut g = small_game();
    g.objects(&[CAM_A, CAM_B, FUNC]);
    let mut s = State::new();
    run(&mut s, &g);
    g.objects(&[CAM_B, FUNC]);
    run(&mut s, &g);
    assert_eq!((scans(&s), known(&s), cams_last(&s)), (2, 2, 1));
    g.u64(CAM_A, 0);
    let d = run(&mut s, &g);
    assert_eq!(d.calls, vec![(TARGET, CAM_B, FUNC), (TARGET, CAM_B, FUNC)]);
    assert_eq!((scans(&s), known(&s), cams_last(&s)), (3, 1, 1));
    run(&mut s, &g);
    assert_eq!(scans(&s), 3);
}

#[test]
fn changed_number_of_objects_has_it_scan_and_call_all() {
    let mut g = small_game();
    let mut s = State::new();
    run(&mut s, &g);
    let cam_c = 0x7000_0200;
    g.object(cam_c, CAM_CLASS, 0);
    g.objects(&[PAWN, CAM_A, 0, OTHER_FUNC, FUNC, CAM_B, cam_c]);
    let d = run(&mut s, &g);
    assert_eq!(d.calls, vec![
        (TARGET, CAM_A, FUNC),
        (TARGET, CAM_B, FUNC),
        (TARGET, CAM_A, FUNC),
        (TARGET, CAM_B, FUNC),
        (TARGET, cam_c, FUNC),
    ]);
    assert!(d.lines.is_empty());
    assert_eq!(scans(&s), 2);
    assert_eq!(known(&s), 3);
}

#[test]
fn dead_camera_is_dropped_and_has_it_scan() {
    let mut g = small_game();
    let mut s = State::new();
    run(&mut s, &g);
    g.u64(CAM_A, 0);
    let d = run(&mut s, &g);
    assert_eq!(d.calls, vec![(TARGET, CAM_B, FUNC), (TARGET, CAM_B, FUNC)]);
    assert_eq!(scans(&s), 2);
    assert_eq!(known(&s), 1);
    assert_eq!(cams_last(&s), 1);
    assert_eq!(run(&mut s, &g).clocks, 0);
}

#[test]
fn missing_function_is_searched_at_every_tick_after_a_scan() {
    let mut g = small_game();
    g.objects(&[CAM_A, OTHER_FUNC]);
    let mut s = State::new();
    for n in 1..4 {
        let d = run(&mut s, &g);
        assert!(d.calls.is_empty());
        assert_eq!(scans(&s), n);
        assert!(!func_ok(&s));
    }
    g.object(OTHER_FUNC, FUNC_CLASS, DISABLE_NAME);
    let d = run(&mut s, &g);
    assert_eq!(d.lines, vec!["Camera UFunction acquired".to_string()]);
    assert_eq!(d.calls, vec![(TARGET, CAM_A, OTHER_FUNC)]);
    assert_eq!(cam_calls(&s), 1);
    assert!(func_ok(&s));
}

#[test]
fn lost_function_is_searched_after_four_ticks() {
    let mut g = small_game();
    let mut s = State::new();
    run(&mut s, &g);
    g.u64(FUNC, 0);
    for _ in 0..3 {
        let d = run(&mut s, &g);
        assert!(d.calls.is_empty());
        assert!(!func_ok(&s));
        assert_eq!(scans(&s), 1);
    }
    g.object(OTHER_FUNC, FUNC_CLASS, DISABLE_NAME);
    let d = run(&mut s, &g);
    assert_eq!(scans(&s), 2);
    assert_eq!(d.calls, vec![(TARGET, CAM_A, OTHER_FUNC), (TARGET, CAM_B, OTHER_FUNC)]);
}

#[test]
fn lost_function_is_searched_after_four_ticks_while_the_memory_changes() {
    let mut g = small_game();
    let mut s = State::new();
    run(&mut s, &g);
    g.object(FUNC, FUNC_CLASS, ENABLE_NAME);
    run(&mut s, &g);
    g.u64(FUNC, 0);
    g.objects(&[CAM_B, CAM_A, FUNC, PAWN, OTHER_FUNC, 0]);
    run(&mut s, &g);
    g.object(PAWN, FUNC_CLASS, DISABLE_NAME);
    run(&mut s, &g);
    assert_eq!(scans(&s), 1);
    assert_eq!(cam_calls(&s), 2);
    let d = run(&mut s, &g);
    assert_eq!(scans(&s), 2);
    assert_eq!(d.calls, vec![(TARGET, CAM_B, PAWN), (TARGET, CAM_A, PAWN)]);
}

/// Runs a tick to its end with many reads answered before each step, and tells what
/// it did and what it had to ask for.
fn run_knowing(
    state: &mut State,
    game: &Game,
    reads: &[(usize, usize)],
) -> (Done, Vec<(usize, usize)>) {
    let mut done = Done { calls: Vec::new(), lines: Vec::new(), clocks: 0 };
    let mut asked = Vec::new();
    let mut t = Tick::new(GAME);
    let mut fresh = true;
    loop {
        if fresh {
            for (addr, len) in reads {
                t.answer(*addr, *len, game.read(*addr, *len));
            }
        }
        fresh = true;
        match tick(state, &mut t) {
            Action::Proceed => {}
            Action::Read { addr, len } => {
                asked.push((addr, len));
                t.answer(addr, len, game.read(addr, len));
                fresh = false;
            }
            Action::Clock => {
                t.tell_time(1000 + 7 * done.clocks as u64);
                done.clocks += 1;
                fresh = false;
            }
            Action::Invoke { target, cam, func } => done.calls.push((target, cam, func)),
            Action::Log(line) => {
                done.lines.push(String::from_utf8(line.as_bytes().to_vec()).unwrap())
            }
            Action::Done => return (done, asked),
        }
    }
}

#[test]
fn answers_piece_by_piece_come_to_the_same() {
    let g = small_game();
    let mut piecewise = State::new();
    let (a, asked) = run_knowing(&mut piecewise, &g, &[]);
    assert!(!asked.is_empty());
    let mut at_once = State::new();
    let (b, none) = run_knowing(&mut at_once, &g, &asked);
    assert!(none.is_empty());
    let mut halved = State::new();
    let (c, some) = run_knowing(&mut halved, &g, &asked[..asked.len() / 2]);
    assert!(!some.is_empty() && some.len() < asked.len());
    for (s, d) in [(&at_once, &b), (&halved, &c)] {
        assert_eq!(d.calls, a.calls);
        assert_eq!(d.lines, a.lines);
        assert_eq!(d.clocks, a.clocks);
        assert_eq!(scans(s), scans(&piecewise));
        assert_eq!(known(s), known(&piecewise));
        assert_eq!(cams_last(s), cams_last(&piecewise));
        assert_eq!(cam_calls(s), cam_calls(&piecewise));
        assert_eq!(walk_ms(s), walk_ms(&piecewise));
    }
    assert_eq!(a.calls, vec![(TARGET, CAM_A, FUNC), (TARGET, CAM_B, FUNC)]);
}

#[test]
fn default_objects_and_archetypes_are_passed_over() {
    for flags in [0x10u32, 0x20, 0x30, 0x11] {
        let mut g = small_game();
        g.u32(CAM_A + 8, flags);
        let mut s = State::new();
        run(&mut s, &g);
        assert_eq!(cams_last(&s), 1);
    }
    let mut g = small_game();
    g.u32(CAM_A + 8, 0xCF);
    let mut s = State::new();
    run(&mut s, &g);
    assert_eq!(cams_last(&s), 2);
}

#[test]
fn implausible_objects_are_passed_over() {
    let mut outside = small_game();
    outside.u64(CAM_A, (BASE + 0x800_0000) as u64);
    let mut classless = small_game();
    classless.u64(CAM_A + 0x10, 0);
    let mut cut = small_game();
    cut.bytes.remove(&(CAM_A + 0x27));
    let mut unnamed = small_game();
    unnamed.name(CAM_NAME, b"");
    for (g, cams) in [(outside, 1), (classless, 1), (cut, 1), (unnamed, 0)] {
        let mut s = State::new();
        run(&mut s, &g);
        assert_eq!(cams_last(&s), cams);
    }
}

#[test]
fn camera_that_cannot_be_called_is_not_called() {
    let mut g = small_game();
    g.u64(VTABLE + 0x44 * 8, 0x1234);
    let mut s = State::new();
    run(&mut s, &g);
    assert!(run(&mut s, &g).calls.is_empty());
    g.u64(VTABLE + 0x44 * 8, 0);
    assert!(run(&mut s, &g).calls.is_empty());
    g.bytes.remove(&(VTABLE + 0x44 * 8));
    assert!(run(&mut s, &g).calls.is_empty());
    assert_eq!(cam_calls(&s), 0);
}

#[test]
fn missing_chunk_is_passed_over_whole() {
    let mut g = small_game();
    g.u32(ARRAY + 0x14, 0x1_0002);
    g.u32(ARRAY + 0x1C, 2);
    g.u64(CHUNKS, 0);
    g.u64(CHUNKS + 8, 0x2200_0000);
    g.u64(0x2200_0000, FUNC as u64);
    g.u64(0x2200_0018, CAM_B as u64);
    let mut s = State::new();
    let d = run(&mut s, &g);
    assert_eq!(d.calls, vec![(TARGET, CAM_B, FUNC)]);
    assert_eq!(cams_last(&s), 1);
}

#[test]
fn without_an_array_there_is_no_scan() {
    let mut empty = small_game();
    empty.objects(&[]);
    let mut huge = small_game();
    huge.u32(ARRAY + 0x14, 8_000_001);
    let mut chunkless = small_game();
    chunkless.u32(ARRAY + 0x1C, 0);
    let mut many = small_game();
    many.u32(ARRAY + 0x1C, 0x1001);
    for g in [empty, huge, chunkless, many] {
        let mut s = State::new();
        let d = run(&mut s, &g);
        assert_eq!(d.clocks, 1);
        assert_eq!(scans(&s), 0);
        assert!(d.lines.is_empty());
    }
}

#[test]
fn more_cameras_than_there_is_room_for() {
    let mut g = small_game();
    let mut objects = vec![FUNC];
    for i in 0..70 {
        let cam = 0x7800_0000 + i * 0x100;
        g.object(cam, CAM_CLASS, 0);
        objects.push(cam);
    }
    g.objects(&objects);
    let mut s = State::new();
    let d = run(&mut s, &g);
    assert_eq!(d.calls.len(), 70);
    assert_eq!(cams_last(&s), 70);
    assert_eq!(known(&s), 64);
    run(&mut s, &g);
    assert_eq!(scans(&s), 2);
}

#[test]
fn waiting_changes_nothing_and_asks_again() {
    let mut s = State::new();
    let mut t = Tick::new(GAME);
    for _ in 0..3 {
        let waits = matches!(
            tick(&mut s, &mut t),
            Action::Read { addr, len: 4 } if addr == ARRAY + 0x14
        );
        assert!(waits);
    }
}

#[test]
fn finished_tick_stays_finished() {
    let mut g = small_game();
    g.objects(&[]);
    let mut s = State::new();
    let mut t = Tick::new(GAME);
    t.answer(ARRAY + 0x14, 4, vec![0; 4]);
    let mut steps = 0;
    loop {
        match tick(&mut s, &mut t) {
            Action::Read { addr, len } => t.answer(addr, len, g.read(addr, len)),
            Action::Clock => t.tell_time(1),
            Action::Done => break,
            _ => {}
        }
        steps += 1;
        assert!(steps < 100);
    }
    assert!(matches!(tick(&mut s, &mut t), Action::Done));
}

#[test]
fn cameras_are_remembered_once_and_in_a_ring() {
    let mut s = State::new();
    for i in 1..=64 {
        assert!(remember_cam(&mut s, i * 0x100));
        assert!(!remember_cam(&mut s, i * 0x100));
    }
    assert_eq!(known(&s), 64);
    assert!(remember_cam(&mut s, 65 * 0x100));
    assert_eq!(known(&s), 64);
    assert!(!remember_cam(&mut s, 0x200));
    assert!(!remember_cam(&mut s, 65 * 0x100));
    assert!(remember_cam(&mut s, 0x100));
    assert!(remember_cam(&mut s, 0x200));
}

#[test]
fn array_is_measured() {
    let g = small_game();
    let m = g.all(&[(ARRAY + 0x14, 4), (ARRAY + 0x1C, 4), (ARRAY, 8), (CHUNKS, 8)]);
    assert_eq!(count(&m, &GAME), Ok(6));
    assert_eq!(chunks_ptr(&m, &GAME), Ok(CHUNKS));
    assert_eq!(chunk_at(&m, CHUNKS, 0), Ok(0x2100_0000));
    assert_eq!(chunk_at(&m, 0, 5), Ok(0));
    let items = g.all(&[(0x2100_0018, 8)]);
    assert_eq!(item_at(&items, 0x2100_0000, 1), Ok(CAM_A));
    assert_eq!(item_at(&items, 0x2100_0000, 0x3_0001), Ok(CAM_A));
    assert_eq!(item_at(&items, 0, 1), Ok(0));
    let mut most = Memory::new();
    most.record(ARRAY + 0x14, 4, 8_000_000u32.to_le_bytes().to_vec());
    assert_eq!(count(&most, &GAME), Ok(8_000_000));
    most.record(ARRAY + 0x14, 4, vec![1, 2]);
    assert_eq!(count(&most, &GAME), Ok(0));
}

#[test]
fn objects_are_described_and_their_class_is_cached() {
    let g = small_game();
    let m = g.all(&[
        (FUNC, 0x28),
        (FUNC_CLASS, 8),
        (FUNC_CLASS + 0x18, 4),
        (POOL + 0x10, 8),
        (NAMES + FUNC_NAME as usize * 2, 2),
        (NAMES + FUNC_NAME as usize * 2 + 2, 8),
    ]);
    let mut s = State::new();
    let want = Described { class: FUNC_CLASS, class_tag: 2, name_id: DISABLE_NAME };
    assert_eq!(describe(&mut s, &m, &GAME, FUNC), Ok(Some(want)));
    let only = g.all(&[(FUNC, 0x28)]);
    assert_eq!(describe(&mut s, &only, &GAME, FUNC), Ok(Some(want)));
    assert!(describe(&mut State::new(), &only, &GAME, FUNC).is_err());
}

#[test]
fn function_is_told_by_its_name() {
    let g = small_game();
    let entry = NAMES + DISABLE_NAME as usize * 2;
    let other = NAMES + ENABLE_NAME as usize * 2;
    let m = g.all(&[
        (POOL + 0x10, 8),
        (entry, 2),
        (entry + 2, 19),
        (other, 2),
        (other + 2, 18),
        (FUNC, 0x28),
        (OTHER_FUNC, 0x28),
        (PAWN, 0x28),
        (FUNC_CLASS, 8),
        (FUNC_CLASS + 0x18, 4),
        (NAMES + FUNC_NAME as usize * 2, 2),
        (NAMES + FUNC_NAME as usize * 2 + 2, 8),
        (PAWN_CLASS, 8),
        (PAWN_CLASS + 0x18, 4),
        (NAMES + PAWN_NAME as usize * 2, 2),
        (NAMES + PAWN_NAME as usize * 2 + 2, 4),
    ]);
    let mut s = State::new();
    assert_eq!(name_tag(&mut s, &m, POOL, DISABLE_NAME), Ok(1));
    assert_eq!(name_tag(&mut s, &m, POOL, ENABLE_NAME), Ok(0));
    assert_eq!(name_tag(&mut s, &Memory::new(), POOL, DISABLE_NAME), Ok(1));
    assert_eq!(is_disable_func(&mut s, &m, &GAME, FUNC), Ok(true));
    assert_eq!(is_disable_func(&mut s, &m, &GAME, OTHER_FUNC), Ok(false));
    assert_eq!(is_disable_func(&mut s, &m, &GAME, PAWN), Ok(false));
}
