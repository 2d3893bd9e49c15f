//! The persistence format for task snapshots: a flat character sequence
//! holding a task count followed by one record per task, each record a
//! fixed-width numeral per field and length-prefixed text. Transient drag
//! fields are never written; decoding yields tasks at rest.
//!
//! The format is this library's own: the host's save/load collaborator
//! treats the blob as opaque. [`lemma_save_load_round_trip`] proves that
//! decoding an encoded snapshot reproduces the tasks exactly, up to the
//! transient fields.

use vstd::prelude::*;
use vstd::string::StrSliceExecFns;

use crate::numeral::{
    all_hex, hex_digits, hex_value, lemma_hex_digits_value, lemma_pow16_u64,
    lemma_signed_digits_value, pow16, push_i64, push_u64, read_i64, read_u64, signed_digits,
    signed_value,
};
use crate::task::{cleared, cleared_all, task_at_rest, views_of, Task, TaskView};

verus! {

/// A task's texts are short enough for their 16-digit length prefixes.
/// Every task held in actual memory satisfies this: a string's length is
/// bounded by the address space.
pub open spec fn encodable_task(t: TaskView) -> bool {
    t.name.len() < pow16(16) && t.color.len() < pow16(16)
}

/// One record: id, start, end, then name and color, each text preceded by
/// its length.
pub open spec fn encoded_task(t: TaskView) -> Seq<char> {
    hex_digits(t.id as nat, 16) + signed_digits(t.start as int) + signed_digits(t.end as int)
        + hex_digits(t.name.len(), 16) + t.name + hex_digits(t.color.len(), 16) + t.color
}

/// The records of `s`, in order.
pub open spec fn encoded_records(s: Seq<TaskView>) -> Seq<char>
    decreases s.len(),
{
    if s.len() == 0 {
        Seq::empty()
    } else {
        encoded_task(s[0]) + encoded_records(s.drop_first())
    }
}

/// The whole blob: the task count, then the records.
pub open spec fn encoded_snapshot(s: Seq<TaskView>) -> Seq<char> {
    hex_digits(s.len(), 16) + encoded_records(s)
}

/// Decode one 16-digit numeral from the front of `s`.
pub open spec fn dec_number(s: Seq<char>) -> Option<(int, Seq<char>)> {
    if s.len() >= 16 && all_hex(s.take(16)) {
        Some((hex_value(s.take(16)), s.skip(16)))
    } else {
        None
    }
}

/// Decode one signed numeral from the front of `s`.
pub open spec fn dec_signed(s: Seq<char>) -> Option<(int, Seq<char>)> {
    if s.len() >= 17 {
        match signed_value(s.take(17)) {
            Some(v) => Some((v, s.skip(17))),
            None => None,
        }
    } else {
        None
    }
}

/// Decode one length-prefixed text from the front of `s`.
pub open spec fn dec_text(s: Seq<char>) -> Option<(Seq<char>, Seq<char>)> {
    match dec_number(s) {
        Some((l, r)) => if l <= r.len() {
            Some((r.take(l), r.skip(l)))
        } else {
            None
        },
        None => None,
    }
}

/// Decode one task record from the front of `s`. The decoded task is at
/// rest: the transient drag fields are not part of the format.
pub open spec fn dec_task(s: Seq<char>) -> Option<(TaskView, Seq<char>)> {
    match dec_number(s) {
        Some((id, r1)) => match dec_signed(r1) {
            Some((start, r2)) => match dec_signed(r2) {
                Some((end, r3)) => match dec_text(r3) {
                    Some((name, r4)) => match dec_text(r4) {
                        Some((color, r5)) => Some(
                            (
                                TaskView {
                                    id: id as u64,
                                    name,
                                    start: start as i64,
                                    end: end as i64,
                                    color,
                                    is_dragging: false,
                                    drag_offset_days: 0,
                                },
                                r5,
                            ),
                        ),
                        None => None,
                    },
                    None => None,
                },
                None => None,
            },
            None => None,
        },
        None => None,
    }
}

/// Decode `n` task records from the front of `s`.
pub open spec fn dec_records(s: Seq<char>, n: nat) -> Option<(Seq<TaskView>, Seq<char>)>
    decreases n,
{
    if n == 0 {
        Some((Seq::empty(), s))
    } else {
        match dec_task(s) {
            Some((t, r)) => match dec_records(r, (n - 1) as nat) {
                Some((ts, r2)) => Some((seq![t] + ts, r2)),
                None => None,
            },
            None => None,
        }
    }
}

/// Decode a whole blob: the count, that many records, nothing left over.
pub open spec fn decoded_snapshot(s: Seq<char>) -> Option<Seq<TaskView>> {
    match dec_number(s) {
        Some((n, r)) => match dec_records(r, n as nat) {
            Some((ts, rest)) => if rest.len() == 0 {
                Some(ts)
            } else {
                None
            },
            None => None,
        },
        None => None,
    }
}

// ---------------------------------------------------------------------------
// Round trip
// ---------------------------------------------------------------------------

proof fn lemma_dec_number_enc(v: nat, rest: Seq<char>)
    requires
        v < pow16(16),
    ensures
        dec_number(hex_digits(v, 16) + rest) == Some((v as int, rest)),
{
    lemma_hex_digits_value(v, 16);
    let s = hex_digits(v, 16) + rest;
    assert(s.take(16) =~= hex_digits(v, 16));
    assert(s.skip(16) =~= rest);
}

proof fn lemma_dec_signed_enc(v: int, rest: Seq<char>)
    requires
        i64::MIN <= v <= i64::MAX,
    ensures
        dec_signed(signed_digits(v) + rest) == Some((v, rest)),
{
    lemma_signed_digits_value(v);
    let s = signed_digits(v) + rest;
    assert(s.take(17) =~= signed_digits(v));
    assert(s.skip(17) =~= rest);
}

proof fn lemma_dec_text_enc(txt: Seq<char>, rest: Seq<char>)
    requires
        txt.len() < pow16(16),
    ensures
        dec_text(hex_digits(txt.len(), 16) + txt + rest) == Some((txt, rest)),
{
    let s = hex_digits(txt.len(), 16) + txt + rest;
    assert(s =~= hex_digits(txt.len(), 16) + (txt + rest));
    lemma_dec_number_enc(txt.len(), txt + rest);
    let r = (txt + rest);
    assert(r.take(txt.len() as int) =~= txt);
    assert(r.skip(txt.len() as int) =~= rest);
}

/// Decoding one encoded record yields the task at rest and leaves exactly
/// the trailing input.
proof fn lemma_dec_task_enc(t: TaskView, rest: Seq<char>)
    requires
        encodable_task(t),
    ensures
        dec_task(encoded_task(t) + rest) == Some((cleared(t), rest)),
{
    lemma_pow16_u64();
    let a = hex_digits(t.id as nat, 16);
    let b = signed_digits(t.start as int);
    let c = signed_digits(t.end as int);
    let d = hex_digits(t.name.len(), 16);
    let e = t.name;
    let f = hex_digits(t.color.len(), 16);
    let g = t.color;
    let s = encoded_task(t) + rest;
    assert(s =~= a + (b + (c + (d + e + (f + g + rest)))));
    lemma_dec_number_enc(t.id as nat, b + (c + (d + e + (f + g + rest))));
    lemma_dec_signed_enc(t.start as int, c + (d + e + (f + g + rest)));
    lemma_dec_signed_enc(t.end as int, d + e + (f + g + rest));
    lemma_dec_text_enc(e, f + g + rest);
    lemma_dec_text_enc(g, rest);
}

/// Decoding `n` encoded records yields the tasks at rest, in order.
proof fn lemma_dec_records_enc(s: Seq<TaskView>, rest: Seq<char>)
    requires
        forall|i: int| 0 <= i < s.len() ==> encodable_task(#[trigger] s[i]),
    ensures
        dec_records(encoded_records(s) + rest, s.len()) == Some(
            (cleared_all(s), rest),
        ),
    decreases s.len(),
{
    if s.len() == 0 {
        assert(encoded_records(s) + rest =~= rest);
        assert(cleared_all(s) =~= Seq::<TaskView>::empty());
    } else {
        let tail = s.drop_first();
        assert(encoded_records(s) + rest =~= encoded_task(s[0]) + (encoded_records(tail)
            + rest));
        lemma_dec_task_enc(s[0], encoded_records(tail) + rest);
        assert(forall|i: int| 0 <= i < tail.len() ==> #[trigger] tail[i] == s[i + 1]);
        lemma_dec_records_enc(tail, rest);
        assert(seq![cleared(s[0])] + cleared_all(tail) =~= cleared_all(s));
    }
}

/// The round-trip law of persistence: decoding an encoded snapshot yields
/// the same ordered task sequence, with each task's transient drag fields
/// reset. The bounds hold of every snapshot that exists in memory, since
/// lengths of actual collections fit in 64 bits.
pub proof fn lemma_save_load_round_trip(s: Seq<TaskView>)
    requires
        s.len() < pow16(16),
        forall|i: int| 0 <= i < s.len() ==> encodable_task(#[trigger] s[i]),
    ensures
        decoded_snapshot(encoded_snapshot(s)) == Some(cleared_all(s)),
{
    lemma_dec_number_enc(s.len(), encoded_records(s));
    assert(encoded_snapshot(s) =~= hex_digits(s.len(), 16) + encoded_records(s));
    assert(encoded_records(s) =~= encoded_records(s) + Seq::<char>::empty());
    lemma_dec_records_enc(s, Seq::<char>::empty());
}

/// The format carries no transient drag fields, so two snapshots that agree
/// up to those fields encode to the same blob.
pub proof fn lemma_encoding_ignores_marks(s1: Seq<TaskView>, s2: Seq<TaskView>)
    requires
        s1.len() == s2.len(),
        forall|i: int| 0 <= i < s1.len() ==> cleared(#[trigger] s1[i]) == cleared(s2[i]),
    ensures
        encoded_records(s1) == encoded_records(s2),
        encoded_snapshot(s1) == encoded_snapshot(s2),
    decreases s1.len(),
{
    if s1.len() == 0 {
    } else {
        assert(cleared(s1[0]) == cleared(s2[0]));
        assert(encoded_task(s1[0]) == encoded_task(cleared(s1[0])));
        assert(encoded_task(s2[0]) == encoded_task(cleared(s2[0])));
        let t1 = s1.drop_first();
        let t2 = s2.drop_first();
        assert(forall|i: int| 0 <= i < t1.len() ==> #[trigger] t1[i] == s1[i + 1]);
        assert(forall|i: int| 0 <= i < t2.len() ==> #[trigger] t2[i] == s2[i + 1]);
        assert forall|i: int| 0 <= i < t1.len() implies cleared(#[trigger] t1[i]) == cleared(
            t2[i],
        ) by {
            assert(cleared(s1[i + 1]) == cleared(s2[i + 1]));
        }
        lemma_encoding_ignores_marks(t1, t2);
        assert(encoded_records(s1) == encoded_records(s2));
    }
}

// ---------------------------------------------------------------------------
// Executable encoder
// ---------------------------------------------------------------------------

/// Append the characters of `s` to `out`.
fn push_str_chars(out: &mut Vec<char>, s: &str)
    ensures
        final(out)@ == old(out)@ + s@,
{
    let ghost base = out@;
    let n = s.unicode_len();
    let mut i: usize = 0;
    while i < n
        invariant
            0 <= i <= n,
            n == s@.len(),
            out@ == base + s@.subrange(0, i as int),
        decreases n - i,
    {
        let c = s.get_char(i);
        out.push(c);
        proof {
            assert(s@.subrange(0, i + 1) =~= s@.subrange(0, i as int).push(s@[i as int]));
        }
        i += 1;
    }
    proof {
        assert(s@.subrange(0, n as int) =~= s@);
    }
}

/// Append the record of `t` to `out`.
fn push_task(out: &mut Vec<char>, t: &Task)
    ensures
        final(out)@ == old(out)@ + encoded_task(t@),
{
    let ghost base = out@;
    push_u64(out, t.id);
    push_i64(out, t.start);
    push_i64(out, t.end);
    let name_len = t.name.as_str().unicode_len();
    push_u64(out, name_len as u64);
    push_str_chars(out, t.name.as_str());
    let color_len = t.color.as_str().unicode_len();
    push_u64(out, color_len as u64);
    push_str_chars(out, t.color.as_str());
    proof {
        assert(out@ =~= base + encoded_task(t@));
    }
}

proof fn lemma_records_snoc(s: Seq<TaskView>, t: TaskView)
    ensures
        encoded_records(s.push(t)) == encoded_records(s) + encoded_task(t),
    decreases s.len(),
{
    if s.len() == 0 {
        let sp = s.push(t);
        assert(sp[0] == t);
        assert(sp.drop_first() =~= Seq::<TaskView>::empty());
        assert(encoded_records(sp.drop_first()) == Seq::<char>::empty());
        assert(encoded_records(sp) == encoded_task(t) + Seq::<char>::empty());
        assert(encoded_task(t) + Seq::<char>::empty() =~= Seq::<char>::empty() + encoded_task(
            t,
        ));
    } else {
        let sp = s.push(t);
        assert(sp[0] == s[0]);
        assert(sp.drop_first() =~= s.drop_first().push(t));
        lemma_records_snoc(s.drop_first(), t);
        assert(encoded_records(sp) == encoded_task(s[0]) + (encoded_records(s.drop_first())
            + encoded_task(t)));
        assert(encoded_task(s[0]) + (encoded_records(s.drop_first()) + encoded_task(t))
            =~= (encoded_task(s[0]) + encoded_records(s.drop_first())) + encoded_task(t));
    }
}

/// Encode an ordered task list as a persistence blob.
pub fn encode_tasks(tasks: &Vec<Task>) -> (r: Vec<char>)
    ensures
        r@ == encoded_snapshot(views_of(tasks@)),
{
    let ghost views = views_of(tasks@);
    let mut out: Vec<char> = Vec::new();
    let n = tasks.len();
    push_u64(&mut out, n as u64);
    proof {
        assert(out@ =~= hex_digits(views.len(), 16));
    }
    let mut i: usize = 0;
    while i < n
        invariant
            0 <= i <= n,
            n == tasks@.len(),
            views == views_of(tasks@),
            out@ == hex_digits(views.len(), 16) + encoded_records(views.take(i as int)),
        decreases n - i,
    {
        push_task(&mut out, &tasks[i]);
        proof {
            assert(views[i as int] == tasks@[i as int]@);
            lemma_records_snoc(views.take(i as int), views[i as int]);
            assert(views.take(i + 1) =~= views.take(i as int).push(views[i as int]));
        }
        i += 1;
    }
    proof {
        assert(views.take(n as int) =~= views);
    }
    out
}

// ---------------------------------------------------------------------------
// Executable decoder
// ---------------------------------------------------------------------------

/// Relies on `String`'s `FromIterator<char>` implementation: collecting
/// characters yields a string holding exactly those characters in order.
#[verifier::external_body]
pub(crate) fn string_from_chars(chars: Vec<char>) -> (r: String)
    ensures
        r@ == chars@,
{
    String::from_iter(chars)
}

/// Read one length-prefixed text at `pos`.
fn read_text(s: &[char], pos: usize) -> (r: Option<(String, usize)>)
    requires
        pos <= s@.len(),
    ensures
        match r {
            Some((txt, p2)) => pos <= p2 <= s@.len() && dec_text(s@.skip(pos as int)) == Some(
                (txt@, s@.skip(p2 as int)),
            ),
            None => dec_text(s@.skip(pos as int)) is None,
        },
{
    let ghost tail = s@.skip(pos as int);
    if s.len() - pos < 16 {
        return None;
    }
    proof {
        assert(tail.take(16) =~= s@.subrange(pos as int, pos + 16));
    }
    match read_u64(s, pos) {
        None => None,
        Some(l) => {
            proof {
                assert(tail.skip(16) =~= s@.skip(pos + 16));
            }
            let p1 = pos + 16;
            let avail = s.len() - p1;
            if l > avail as u64 {
                return None;
            }
            let ll = l as usize;
            let mut buf: Vec<char> = Vec::new();
            let mut j: usize = 0;
            while j < ll
                invariant
                    0 <= j <= ll,
                    p1 + ll <= s@.len(),
                    s@.len() <= usize::MAX,
                    buf@ == s@.subrange(p1 as int, p1 + j),
                decreases ll - j,
            {
                buf.push(s[p1 + j]);
                proof {
                    assert(s@.subrange(p1 as int, p1 + j + 1) =~= s@.subrange(
                        p1 as int,
                        p1 + j,
                    ).push(s@[p1 + j]));
                }
                j += 1;
            }
            let txt = string_from_chars(buf);
            proof {
                let rest = s@.skip(p1 as int);
                assert(rest.take(l as int) =~= s@.subrange(p1 as int, p1 + ll));
                assert(rest.skip(l as int) =~= s@.skip(p1 + ll));
            }
            Some((txt, p1 + ll))
        },
    }
}

/// Read one task record at `pos`. The returned task is at rest.
fn read_task(s: &[char], pos: usize) -> (r: Option<(Task, usize)>)
    requires
        pos <= s@.len(),
    ensures
        match r {
            Some((t, p2)) => pos <= p2 <= s@.len() && task_at_rest(t@) && dec_task(
                s@.skip(pos as int),
            ) == Some((t@, s@.skip(p2 as int))),
            None => dec_task(s@.skip(pos as int)) is None,
        },
{
    let ghost tail = s@.skip(pos as int);
    if s.len() - pos < 16 {
        return None;
    }
    proof {
        assert(tail.take(16) =~= s@.subrange(pos as int, pos + 16));
    }
    let id = match read_u64(s, pos) {
        None => {
            return None;
        },
        Some(v) => v,
    };
    proof {
        assert(tail.skip(16) =~= s@.skip(pos + 16));
    }
    let p1 = pos + 16;
    if s.len() - p1 < 17 {
        return None;
    }
    proof {
        assert(s@.skip(p1 as int).take(17) =~= s@.subrange(p1 as int, p1 + 17));
    }
    let start = match read_i64(s, p1) {
        None => {
            return None;
        },
        Some(v) => v,
    };
    proof {
        assert(s@.skip(p1 as int).skip(17) =~= s@.skip(p1 + 17));
    }
    let p2 = p1 + 17;
    if s.len() - p2 < 17 {
        return None;
    }
    proof {
        assert(s@.skip(p2 as int).take(17) =~= s@.subrange(p2 as int, p2 + 17));
    }
    let end = match read_i64(s, p2) {
        None => {
            return None;
        },
        Some(v) => v,
    };
    proof {
        assert(s@.skip(p2 as int).skip(17) =~= s@.skip(p2 + 17));
    }
    let p3 = p2 + 17;
    let (name, p4) = match read_text(s, p3) {
        None => {
            return None;
        },
        Some(v) => v,
    };
    let (color, p5) = match read_text(s, p4) {
        None => {
            return None;
        },
        Some(v) => v,
    };
    let t = Task::new(id, name, start, end, color);
    Some((t, p5))
}

/// The result of decoding `r` after the records of `pre` have already been
/// read.
pub open spec fn with_prefix(pre: Seq<TaskView>, r: Option<(Seq<TaskView>, Seq<char>)>) -> Option<
    (Seq<TaskView>, Seq<char>),
> {
    match r {
        Some((ts, rest)) => Some((pre + ts, rest)),
        None => None,
    }
}

/// Decode a persistence blob back into an ordered task list. Yields nothing
/// when the blob does not parse; every decoded task is at rest.
pub fn decode_tasks(blob: &[char]) -> (r: Option<Vec<Task>>)
    ensures
        match r {
            Some(ts) => decoded_snapshot(blob@) == Some(views_of(ts@)) && forall|i: int|
                0 <= i < ts@.len() ==> task_at_rest((#[trigger] ts@[i])@),
            None => decoded_snapshot(blob@) is None,
        },
{
    if blob.len() < 16 {
        return None;
    }
    proof {
        assert(blob@.skip(0) =~= blob@);
    }
    let n = match read_u64(blob, 0) {
        None => {
            proof {
                assert(blob@.take(16) =~= blob@.subrange(0, 16));
            }
            return None;
        },
        Some(v) => v,
    };
    proof {
        assert(blob@.take(16) =~= blob@.subrange(0, 16));
        assert(blob@.skip(16) =~= blob@.skip(16));
    }
    let mut out: Vec<Task> = Vec::new();
    let mut pos: usize = 16;
    let mut i: u64 = 0;
    while i < n
        invariant
            0 <= i <= n,
            pos <= blob@.len(),
            out@.len() == i,
            forall|j: int| 0 <= j < out@.len() ==> task_at_rest((#[trigger] out@[j])@),
            dec_number(blob@) == Some((n as int, blob@.skip(16))),
            with_prefix(
                views_of(out@),
                dec_records(blob@.skip(pos as int), (n - i) as nat),
            ) == dec_records(blob@.skip(16), n as nat),
        decreases n - i,
    {
        let ghost pre = views_of(out@);
        let (t, p2) = match read_task(blob, pos) {
            None => {
                proof {
                    assert(dec_records(blob@.skip(pos as int), (n - i) as nat) is None);
                }
                return None;
            },
            Some(v) => v,
        };
        out.push(t);
        proof {
            let k = (n - i) as nat;
            let after = dec_records(blob@.skip(p2 as int), (k - 1) as nat);
            assert(views_of(out@) =~= pre.push(t@));
            match after {
                Some((ts, rest)) => {
                    assert(pre + (seq![t@] + ts) =~= pre.push(t@) + ts);
                },
                None => {},
            }
        }
        pos = p2;
        i = i + 1;
    }
    proof {
        assert(dec_records(blob@.skip(pos as int), 0) == Some(
            (Seq::<TaskView>::empty(), blob@.skip(pos as int)),
        ));
        assert(views_of(out@) + Seq::<TaskView>::empty() =~= out@.map_values(
            |t: Task| t@,
        ));
    }
    if pos == blob.len() {
        proof {
            assert(blob@.skip(pos as int).len() == 0);
        }
        Some(out)
    } else {
        proof {
            assert(blob@.skip(pos as int).len() > 0);
        }
        None
    }
}

/// The characters of `s`, in order, as a vector.
pub fn chars_of_str(s: &str) -> (r: Vec<char>)
    ensures
        r@ == s@,
{
    let n = s.unicode_len();
    let mut out: Vec<char> = Vec::new();
    let mut i: usize = 0;
    while i < n
        invariant
            0 <= i <= n,
            n == s@.len(),
            out@ == s@.subrange(0, i as int),
        decreases n - i,
    {
        let c = s.get_char(i);
        out.push(c);
        proof {
            assert(s@.subrange(0, i + 1) =~= s@.subrange(0, i as int).push(s@[i as int]));
        }
        i += 1;
    }
    proof {
        assert(s@.subrange(0, n as int) =~= s@);
    }
    out
}

} // verus!
