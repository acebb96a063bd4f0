//! What the lines of the log say.

use vstd::prelude::*;

use crate::buf;
use crate::laws::{law_digits_read_back, value_of};
use crate::mem::Module;
use crate::model;
use crate::model::Model;
use crate::names;
use crate::worker;

verus! {

/// The bytes of a text in ASCII: one for each character.
pub open spec fn spelled(text: Seq<char>) -> Seq<u8> {
    Seq::new(text.len(), |i: int| text[i] as u8)
}

/// A text in ASCII is spelled with its characters.
pub proof fn lemma_spelled(s: &str)
    requires
        s.is_ascii(),
    ensures
        buf::text(s) == spelled(s@),
{
    vstd::string::is_ascii_spec_bytes(s);
    assert(buf::text(s) =~= spelled(s@));
}

/// Bytes are a number in decimal, without zeros in front.
pub open spec fn decimal(bytes: Seq<u8>, v: int) -> bool {
    &&& value_of(bytes, 10) == v
    &&& bytes.len() > 0
    &&& bytes.len() > 1 ==> bytes[0] != 48
    &&& forall|i: int| 0 <= i < bytes.len() ==> 48 <= #[trigger] bytes[i] <= 57
}

/// Bytes are a number in hexadecimal, with the digits `A` to `F`, without zeros in
/// front.
pub open spec fn hexadecimal(bytes: Seq<u8>, v: int) -> bool {
    &&& value_of(bytes, 16) == v
    &&& bytes.len() > 0
    &&& bytes.len() > 1 ==> bytes[0] != 48
    &&& forall|i: int|
        0 <= i < bytes.len() ==> 48 <= #[trigger] bytes[i] <= 57 || 65 <= bytes[i] <= 70
}

/// The digits of a number in a base up to sixteen.
proof fn lemma_digits(v: nat, base: nat)
    requires
        2 <= base <= 16,
    ensures
        ({
            let all = buf::digits(v, base);
            &&& all.len() > 0
            &&& v > 0 ==> all[0] != 48
            &&& v == 0 ==> all.len() == 1
            &&& forall|i: int|
                0 <= i < all.len() ==> 48 <= #[trigger] all[i] <= 57 || 65 <= all[i] <= 54 + base
        }),
    decreases v,
{
    if v >= base {
        vstd::arithmetic::div_mod::lemma_div_decreases(v as int, base as int);
        assert(v / base > 0) by (nonlinear_arith)
            requires
                v >= base,
                base >= 2,
        ;
        assert(0 <= v % base < base) by (nonlinear_arith)
            requires
                base >= 2,
        ;
        lemma_digits(v / base, base);
    }
}

/// Numbers are written in the digits of their base, without zeros in front.
pub proof fn law_numbers_written(v: nat)
    ensures
        decimal(buf::digits(v, 10), v as int),
        hexadecimal(buf::digits(v, 16), v as int),
{
    lemma_digits(v, 10);
    lemma_digits(v, 16);
    law_digits_read_back(v, 10);
    law_digits_read_back(v, 16);
}

/// Bytes that are filled up end as they are, have zeros in front, and are as long as
/// was asked for, or longer if they were before.
pub proof fn law_padded(bytes: Seq<u8>, width: nat)
    ensures
        ({
            let all = buf::padded(bytes, width);
            &&& all.len() == if bytes.len() >= width {
                bytes.len()
            } else {
                width
            }
            &&& all.skip(all.len() - bytes.len()) == bytes
            &&& forall|i: int| 0 <= i < all.len() - bytes.len() ==> #[trigger] all[i] == 48
        }),
{
    let all = buf::padded(bytes, width);
    assert(all.skip(all.len() - bytes.len()) =~= bytes);
}

/// A report is spelled with these numbers in it.
pub open spec fn report_spelled(
    line: Seq<u8>,
    called: Seq<u8>,
    cameras: Seq<u8>,
    known: Seq<u8>,
    walk: Seq<u8>,
    times: Seq<u8>,
    func: Seq<u8>,
) -> bool {
    line == spelled("called "@) + called + spelled(" times, cameras "@) + cameras + spelled(
        ", known "@,
    ) + known + spelled(", walk "@) + walk + spelled("ms x"@) + times + spelled(", func "@) + func
}

/// A report tells how often the function was called, how many cameras the last scan
/// found and how many are known, how long the last scan took and how many there were,
/// and whether the function is at hand.
pub proof fn law_report(model: Model)
    ensures
        exists|
            called: Seq<u8>,
            cameras: Seq<u8>,
            known: Seq<u8>,
            walk: Seq<u8>,
            times: Seq<u8>,
            func: Seq<u8>,
        |
            {
                &&& #[trigger] report_spelled(
                    worker::report_line(model),
                    called,
                    cameras,
                    known,
                    walk,
                    times,
                    func,
                )
                &&& decimal(called, model.cam_calls as int)
                &&& decimal(cameras, model.cams_last as int)
                &&& decimal(known, model.known.len() as int)
                &&& decimal(walk, model.scan_ms as int)
                &&& decimal(times, model.scans as int)
                &&& func == if model.func == 0 {
                    spelled("MISSING"@)
                } else {
                    spelled("ok"@)
                }
            },
{
    reveal_strlit("called ");
    reveal_strlit(" times, cameras ");
    reveal_strlit(", known ");
    reveal_strlit(", walk ");
    reveal_strlit("ms x");
    reveal_strlit(", func ");
    reveal_strlit("ok");
    reveal_strlit("MISSING");
    lemma_spelled("called ");
    lemma_spelled(" times, cameras ");
    lemma_spelled(", known ");
    lemma_spelled(", walk ");
    lemma_spelled("ms x");
    lemma_spelled(", func ");
    lemma_spelled("ok");
    lemma_spelled("MISSING");
    law_numbers_written(model.cam_calls as nat);
    law_numbers_written(model.cams_last as nat);
    law_numbers_written(model.known.len());
    law_numbers_written(model.scan_ms as nat);
    law_numbers_written(model.scans as nat);
    assert(report_spelled(
        worker::report_line(model),
        buf::digits(model.cam_calls as nat, 10),
        buf::digits(model.cams_last as nat, 10),
        buf::digits(model.known.len(), 10),
        buf::digits(model.scan_ms as nat, 10),
        buf::digits(model.scans as nat, 10),
        if model.func == 0 {
            spelled("MISSING"@)
        } else {
            spelled("ok"@)
        },
    ));
}

/// A line about the module is spelled with these numbers in it.
pub open spec fn attach_spelled(line: Seq<u8>, base: Seq<u8>, size: Seq<u8>) -> bool {
    line == spelled("EM-Win64-Shipping.exe @ 0x"@) + base + spelled(" size=0x"@) + size
}

/// The line about the module tells where it lies and how large it is.
pub proof fn law_attach_line(module: Module)
    ensures
        exists|base: Seq<u8>, size: Seq<u8>|
            {
                &&& #[trigger] attach_spelled(worker::attach_line(module), base, size)
                &&& hexadecimal(base, module.base as int)
                &&& hexadecimal(size, module.size as int)
            },
{
    reveal_strlit("EM-Win64-Shipping.exe");
    reveal_strlit(" @ 0x");
    reveal_strlit("EM-Win64-Shipping.exe @ 0x");
    reveal_strlit(" size=0x");
    lemma_spelled("EM-Win64-Shipping.exe");
    lemma_spelled(" @ 0x");
    lemma_spelled(" size=0x");
    law_numbers_written(module.base as nat);
    law_numbers_written(module.size as nat);
    assert(spelled("EM-Win64-Shipping.exe @ 0x"@) =~= spelled("EM-Win64-Shipping.exe"@) + spelled(
        " @ 0x"@,
    ));
    assert(attach_spelled(
        worker::attach_line(module),
        buf::digits(module.base as nat, 16),
        buf::digits(module.size as nat, 16),
    ));
}

/// A line about a camera is spelled with this number in it, and with a name.
pub open spec fn camera_spelled(line: Seq<u8>, at: Seq<u8>, name: Seq<u8>) -> bool {
    line == spelled("camera 0x"@) + at + spelled(" '"@) + name + spelled("'"@)
}

/// The line about a camera tells where it lies and what its class is called, or a
/// question mark if that is not known.
pub proof fn law_camera_line(cam: usize, name: Seq<u8>)
    ensures
        exists|at: Seq<u8>, shown: Seq<u8>|
            {
                &&& #[trigger] camera_spelled(model::camera_line(cam, name), at, shown)
                &&& hexadecimal(at, cam as int)
                &&& name.len() > 0 ==> shown == name
                &&& name.len() == 0 ==> shown == spelled("?"@)
            },
{
    reveal_strlit("camera 0x");
    reveal_strlit(" '");
    reveal_strlit("'");
    reveal_strlit("?");
    lemma_spelled("camera 0x");
    lemma_spelled(" '");
    law_numbers_written(cam as nat);
    assert(spelled("'"@) =~= seq![39u8]);
    assert(spelled("?"@) =~= seq![63u8]);
    assert(camera_spelled(
        model::camera_line(cam, name),
        buf::digits(cam as nat, 16),
        names::shown_name(name),
    ));
}

/// The line about the function that was found.
pub proof fn law_acquired_line()
    ensures
        buf::text(model::ACQUIRED) == spelled("Camera UFunction acquired"@),
{
    reveal_strlit("Camera UFunction acquired");
    lemma_spelled("Camera UFunction acquired");
}

} // verus!
