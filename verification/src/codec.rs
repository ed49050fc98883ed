//! The persisted representation: a verified codec between a task listing
//! and a flat stream of 64-bit tokens.
//!
//! Counts, timestamps and tags are single tokens; text is a length token
//! followed by one token per character.  Parsing validates structure and
//! ranges, so everything it accepts is a well-formed listing, and encoding
//! followed by parsing returns the listing unchanged
//! ([`lemma_encode_parse_round_trip`]).

use vstd::prelude::*;

use crate::clock::MAX_DAY;
use crate::task::{Completion, CompletionV, DetailsV, Remark, RemarkV, Task, TaskDetails, TaskV};
use crate::tasklisting::TaskListing;
use crate::textfmt::push_char;

verus! {

/// A Unicode scalar value: what a `char` can hold — not a surrogate, at
/// most 0x10FFFF.
pub open spec fn is_unicode_scalar(v: u32) -> bool {
    v < 0xD800 || (0xE000 <= v && v <= 0x10FFFF)
}

/// Relies on `char::from_u32` of std: documented to return `None` exactly
/// for surrogate values and values above 0x10FFFF, and otherwise the
/// `char` with the given value.
pub assume_specification[ char::from_u32 ](i: u32) -> (r: Option<char>)
    ensures
        (r is Some) <==> is_unicode_scalar(i),
        r matches Some(c) ==> c as u32 == i,
;

// ---------------------------------------------------------------------
// Encoding
// ---------------------------------------------------------------------

/// The token for one character: its scalar value.
pub open spec fn enc_char(c: char) -> u64 {
    (c as u32) as u64
}

/// A string: its character count, then one token per character.
pub open spec fn enc_str(s: Seq<char>) -> Seq<u64> {
    seq![s.len() as u64] + s.map_values(|c: char| enc_char(c))
}

/// An optional time of day: a presence tag, then the value if present.
pub open spec fn enc_opt_u32(o: Option<u32>) -> Seq<u64> {
    match o {
        None => seq![0u64],
        Some(v) => seq![1u64, v as u64],
    }
}

/// One revision of a task's details.
pub open spec fn enc_detail(d: DetailsV) -> Seq<u64> {
    seq![d.revised, d.revision_id] + enc_opt_u32(d.sync_time) + enc_str(d.description)
}

/// One remark.
pub open spec fn enc_remark(r: RemarkV) -> Seq<u64> {
    seq![r.datetime] + enc_str(r.text)
}

/// An optional remark: a presence tag, then the remark if present.
pub open spec fn enc_opt_remark(o: Option<RemarkV>) -> Seq<u64> {
    match o {
        None => seq![0u64],
        Some(r) => seq![1u64] + enc_remark(r),
    }
}

/// One completion event.
pub open spec fn enc_completion(c: CompletionV) -> Seq<u64> {
    seq![c.datetime, c.local_day as u64, c.hour as u64, c.minute as u64] + enc_opt_remark(
        c.remark,
    )
}

pub open spec fn enc_details_seq(s: Seq<DetailsV>) -> Seq<u64>
    decreases s.len(),
{
    if s.len() == 0 {
        Seq::<u64>::empty()
    } else {
        enc_detail(s[0]) + enc_details_seq(s.drop_first())
    }
}

pub open spec fn enc_completions_seq(s: Seq<CompletionV>) -> Seq<u64>
    decreases s.len(),
{
    if s.len() == 0 {
        Seq::<u64>::empty()
    } else {
        enc_completion(s[0]) + enc_completions_seq(s.drop_first())
    }
}

pub open spec fn enc_remarks_seq(s: Seq<RemarkV>) -> Seq<u64>
    decreases s.len(),
{
    if s.len() == 0 {
        Seq::<u64>::empty()
    } else {
        enc_remark(s[0]) + enc_remarks_seq(s.drop_first())
    }
}

/// One task: its revision history, completions and remarks, each as a
/// count followed by the entries.
pub open spec fn enc_task(t: TaskV) -> Seq<u64> {
    seq![t.details.len() as u64] + enc_details_seq(t.details) + seq![
        t.completions.len() as u64,
    ] + enc_completions_seq(t.completions) + seq![t.remarks.len() as u64] + enc_remarks_seq(
        t.remarks,
    )
}

pub open spec fn enc_tasks_seq(s: Seq<TaskV>) -> Seq<u64>
    decreases s.len(),
{
    if s.len() == 0 {
        Seq::<u64>::empty()
    } else {
        enc_task(s[0]) + enc_tasks_seq(s.drop_first())
    }
}

/// The whole listing: the task count, then the tasks.
pub open spec fn enc_listing(l: Seq<TaskV>) -> Seq<u64> {
    seq![l.len() as u64] + enc_tasks_seq(l)
}

// ---------------------------------------------------------------------
// Parsing, at the level of the mathematical model
// ---------------------------------------------------------------------

pub open spec fn p_u64(s: Seq<u64>, pos: int) -> Option<(u64, int)> {
    if 0 <= pos < s.len() {
        Some((s[pos], pos + 1))
    } else {
        None
    }
}

pub open spec fn p_str(s: Seq<u64>, pos: int) -> Option<(Seq<char>, int)> {
    match p_u64(s, pos) {
        None => None,
        Some((n, p)) => if p + n <= s.len() && (forall|i: int|
            0 <= i < n ==> s[p + i] <= u32::MAX && is_unicode_scalar((#[trigger] s[p + i]) as u32)) {
            Some((Seq::new(n as nat, |i: int| (s[p + i] as u32) as char), p + n))
        } else {
            None
        },
    }
}

pub open spec fn p_opt_u32(s: Seq<u64>, pos: int) -> Option<(Option<u32>, int)> {
    match p_u64(s, pos) {
        None => None,
        Some((tag, p)) => if tag == 0 {
            Some((None, p))
        } else if tag == 1 {
            match p_u64(s, p) {
                None => None,
                Some((v, p2)) => if v <= u32::MAX {
                    Some((Some(v as u32), p2))
                } else {
                    None
                },
            }
        } else {
            None
        },
    }
}

pub open spec fn p_detail(s: Seq<u64>, pos: int) -> Option<(DetailsV, int)> {
    match p_u64(s, pos) {
        None => None,
        Some((revised, p1)) => match p_u64(s, p1) {
            None => None,
            Some((revision_id, p2)) => match p_opt_u32(s, p2) {
                None => None,
                Some((sync_time, p3)) => match p_str(s, p3) {
                    None => None,
                    Some((description, p4)) => Some(
                        (DetailsV { revised, revision_id, description, sync_time }, p4),
                    ),
                },
            },
        },
    }
}

pub open spec fn p_remark(s: Seq<u64>, pos: int) -> Option<(RemarkV, int)> {
    match p_u64(s, pos) {
        None => None,
        Some((datetime, p1)) => match p_str(s, p1) {
            None => None,
            Some((text, p2)) => Some((RemarkV { datetime, text }, p2)),
        },
    }
}

pub open spec fn p_opt_remark(s: Seq<u64>, pos: int) -> Option<(Option<RemarkV>, int)> {
    match p_u64(s, pos) {
        None => None,
        Some((tag, p)) => if tag == 0 {
            Some((None, p))
        } else if tag == 1 {
            match p_remark(s, p) {
                None => None,
                Some((r, p2)) => Some((Some(r), p2)),
            }
        } else {
            None
        },
    }
}

pub open spec fn p_completion(s: Seq<u64>, pos: int) -> Option<(CompletionV, int)> {
    match p_u64(s, pos) {
        None => None,
        Some((datetime, p1)) => match p_u64(s, p1) {
            None => None,
            Some((local_day, p2)) => match p_u64(s, p2) {
                None => None,
                Some((hour, p3)) => match p_u64(s, p3) {
                    None => None,
                    Some((minute, p4)) => match p_opt_remark(s, p4) {
                        None => None,
                        Some((remark, p5)) => if local_day <= MAX_DAY as u64 && hour < 24
                            && minute < 60 {
                            Some(
                                (
                                    CompletionV {
                                        datetime,
                                        local_day: local_day as u32,
                                        hour: hour as u32,
                                        minute: minute as u32,
                                        remark,
                                    },
                                    p5,
                                ),
                            )
                        } else {
                            None
                        },
                    },
                },
            },
        },
    }
}

pub open spec fn p_details_seq(s: Seq<u64>, pos: int, n: nat) -> Option<(Seq<DetailsV>, int)>
    decreases n,
{
    if n == 0 {
        Some((Seq::<DetailsV>::empty(), pos))
    } else {
        match p_detail(s, pos) {
            None => None,
            Some((d, p)) => match p_details_seq(s, p, (n - 1) as nat) {
                None => None,
                Some((ds, p2)) => Some((seq![d] + ds, p2)),
            },
        }
    }
}

pub open spec fn p_completions_seq(s: Seq<u64>, pos: int, n: nat) -> Option<
    (Seq<CompletionV>, int),
>
    decreases n,
{
    if n == 0 {
        Some((Seq::<CompletionV>::empty(), pos))
    } else {
        match p_completion(s, pos) {
            None => None,
            Some((c, p)) => match p_completions_seq(s, p, (n - 1) as nat) {
                None => None,
                Some((cs, p2)) => Some((seq![c] + cs, p2)),
            },
        }
    }
}

pub open spec fn p_remarks_seq(s: Seq<u64>, pos: int, n: nat) -> Option<(Seq<RemarkV>, int)>
    decreases n,
{
    if n == 0 {
        Some((Seq::<RemarkV>::empty(), pos))
    } else {
        match p_remark(s, pos) {
            None => None,
            Some((r, p)) => match p_remarks_seq(s, p, (n - 1) as nat) {
                None => None,
                Some((rs, p2)) => Some((seq![r] + rs, p2)),
            },
        }
    }
}

pub open spec fn p_task(s: Seq<u64>, pos: int) -> Option<(TaskV, int)> {
    match p_u64(s, pos) {
        None => None,
        Some((nd, p1)) => match p_details_seq(s, p1, nd as nat) {
            None => None,
            Some((details, p2)) => match p_u64(s, p2) {
                None => None,
                Some((nc, p3)) => match p_completions_seq(s, p3, nc as nat) {
                    None => None,
                    Some((completions, p4)) => match p_u64(s, p4) {
                        None => None,
                        Some((nr, p5)) => match p_remarks_seq(s, p5, nr as nat) {
                            None => None,
                            Some((remarks, p6)) => {
                                let t = TaskV { details, completions, remarks };
                                if t.wf() {
                                    Some((t, p6))
                                } else {
                                    None
                                }
                            },
                        },
                    },
                },
            },
        },
    }
}

pub open spec fn p_tasks_seq(s: Seq<u64>, pos: int, n: nat) -> Option<(Seq<TaskV>, int)>
    decreases n,
{
    if n == 0 {
        Some((Seq::<TaskV>::empty(), pos))
    } else {
        match p_task(s, pos) {
            None => None,
            Some((t, p)) => match p_tasks_seq(s, p, (n - 1) as nat) {
                None => None,
                Some((ts, p2)) => Some((seq![t] + ts, p2)),
            },
        }
    }
}

/// The whole-stream parse: the task count, the tasks, and nothing after.
pub open spec fn p_listing(s: Seq<u64>) -> Option<Seq<TaskV>> {
    match p_u64(s, 0) {
        None => None,
        Some((n, p)) => match p_tasks_seq(s, p, n as nat) {
            None => None,
            Some((ts, p2)) => if p2 == s.len() {
                Some(ts)
            } else {
                None
            },
        },
    }
}

// ---------------------------------------------------------------------
// Losslessness bounds: every count fits in one token
// ---------------------------------------------------------------------

pub open spec fn str_encodable(s: Seq<char>) -> bool {
    s.len() <= u64::MAX
}

pub open spec fn remark_encodable(r: RemarkV) -> bool {
    str_encodable(r.text)
}

pub open spec fn task_encodable(t: TaskV) -> bool {
    &&& t.details.len() <= u64::MAX
    &&& t.completions.len() <= u64::MAX
    &&& t.remarks.len() <= u64::MAX
    &&& forall|i: int|
        0 <= i < t.details.len() ==> str_encodable((#[trigger] t.details[i]).description)
    &&& forall|i: int|
        0 <= i < t.completions.len() ==> match (#[trigger] t.completions[i]).remark {
            Some(r) => remark_encodable(r),
            None => true,
        }
    &&& forall|i: int| 0 <= i < t.remarks.len() ==> remark_encodable(#[trigger] t.remarks[i])
}

pub open spec fn listing_encodable(l: Seq<TaskV>) -> bool {
    &&& l.len() <= u64::MAX
    &&& forall|i: int| 0 <= i < l.len() ==> task_encodable(#[trigger] l[i])
}

// ---------------------------------------------------------------------
// Executable encoding
// ---------------------------------------------------------------------

fn push_str_tokens(out: &mut Vec<u64>, s: &str)
    ensures
        final(out)@ == old(out)@ + enc_str(s@),
        str_encodable(s@),
{
    let n = s.unicode_len();
    out.push(n as u64);
    let ghost base = out@;
    let mut i: usize = 0;
    while i < n
        invariant
            n == s@.len(),
            base == old(out)@ + seq![s@.len() as u64],
            i <= n,
            out@ == base + s@.take(i as int).map_values(|c: char| enc_char(c)),
        decreases n - i,
    {
        let c = s.get_char(i);
        out.push((c as u32) as u64);
        proof {
            assert(s@.take(i + 1).map_values(|c: char| enc_char(c)) =~= s@.take(
                i as int,
            ).map_values(|c: char| enc_char(c)).push(enc_char(s@[i as int])));
            assert(out@ =~= base + s@.take(i + 1).map_values(|c: char| enc_char(c)));
        }
        i += 1;
    }
    proof {
        assert(s@.take(n as int) =~= s@);
        assert(out@ =~= old(out)@ + enc_str(s@));
    }
}

fn encode_remark(out: &mut Vec<u64>, r: &Remark)
    ensures
        final(out)@ == old(out)@ + enc_remark(r@),
        remark_encodable(r@),
{
    out.push(r.datetime);
    push_str_tokens(out, r.remark.as_str());
    proof {
        assert(out@ =~= old(out)@ + enc_remark(r@));
    }
}

fn encode_detail(out: &mut Vec<u64>, d: &TaskDetails)
    ensures
        final(out)@ == old(out)@ + enc_detail(d@),
        str_encodable(d@.description),
{
    out.push(d.revised);
    out.push(d.revision_id);
    match d.sync_time {
        None => out.push(0),
        Some(v) => {
            out.push(1);
            out.push(v as u64);
        },
    }
    push_str_tokens(out, d.description.as_str());
    proof {
        assert(out@ =~= old(out)@ + enc_detail(d@));
    }
}

fn encode_completion(out: &mut Vec<u64>, c: &Completion)
    ensures
        final(out)@ == old(out)@ + enc_completion(c@),
        match c@.remark {
            Some(r) => remark_encodable(r),
            None => true,
        },
{
    out.push(c.datetime);
    out.push(c.local_day as u64);
    out.push(c.hour as u64);
    out.push(c.minute as u64);
    match &c.remark {
        None => out.push(0),
        Some(r) => {
            out.push(1);
            encode_remark(out, r);
        },
    }
    proof {
        assert(out@ =~= old(out)@ + enc_completion(c@));
    }
}

fn encode_task(out: &mut Vec<u64>, t: &Task)
    ensures
        final(out)@ == old(out)@ + enc_task(t@),
        task_encodable(t@),
{
    out.push(t.detail_history.len() as u64);
    let ghost base_d = out@;
    proof {
        assert(t@.details.skip(0) =~= t@.details);
    }
    let mut i: usize = 0;
    while i < t.detail_history.len()
        invariant
            i <= t.detail_history.len(),
            t@.details.len() == t.detail_history.len(),
            out@ + enc_details_seq(t@.details.skip(i as int)) == base_d + enc_details_seq(
                t@.details,
            ),
            forall|j: int| 0 <= j < i ==> str_encodable((#[trigger] t@.details[j]).description),
        decreases t.detail_history.len() - i,
    {
        proof {
            let rest = t@.details.skip(i as int);
            assert(rest[0] == t@.details[i as int]);
            assert(rest.drop_first() =~= t@.details.skip(i + 1));
        }
        encode_detail(out, &t.detail_history[i]);
        i += 1;
    }
    proof {
        assert(t@.details.skip(t@.details.len() as int) =~= Seq::<DetailsV>::empty());
    }

    out.push(t.completions.len() as u64);
    let ghost base_c = out@;
    proof {
        assert(t@.completions.skip(0) =~= t@.completions);
    }
    let mut i: usize = 0;
    while i < t.completions.len()
        invariant
            i <= t.completions.len(),
            t@.completions.len() == t.completions.len(),
            out@ + enc_completions_seq(t@.completions.skip(i as int)) == base_c
                + enc_completions_seq(t@.completions),
            forall|j: int|
                0 <= j < i ==> match (#[trigger] t@.completions[j]).remark {
                    Some(r) => remark_encodable(r),
                    None => true,
                },
        decreases t.completions.len() - i,
    {
        proof {
            let rest = t@.completions.skip(i as int);
            assert(rest[0] == t@.completions[i as int]);
            assert(rest.drop_first() =~= t@.completions.skip(i + 1));
        }
        encode_completion(out, &t.completions[i]);
        i += 1;
    }
    proof {
        assert(t@.completions.skip(t@.completions.len() as int) =~= Seq::<CompletionV>::empty());
    }

    out.push(t.remarks.len() as u64);
    let ghost base_r = out@;
    proof {
        assert(t@.remarks.skip(0) =~= t@.remarks);
    }
    let mut i: usize = 0;
    while i < t.remarks.len()
        invariant
            i <= t.remarks.len(),
            t@.remarks.len() == t.remarks.len(),
            out@ + enc_remarks_seq(t@.remarks.skip(i as int)) == base_r + enc_remarks_seq(
                t@.remarks,
            ),
            forall|j: int| 0 <= j < i ==> remark_encodable(#[trigger] t@.remarks[j]),
        decreases t.remarks.len() - i,
    {
        proof {
            let rest = t@.remarks.skip(i as int);
            assert(rest[0] == t@.remarks[i as int]);
            assert(rest.drop_first() =~= t@.remarks.skip(i + 1));
        }
        encode_remark(out, &t.remarks[i]);
        i += 1;
    }
    proof {
        assert(t@.remarks.skip(t@.remarks.len() as int) =~= Seq::<RemarkV>::empty());
        assert(out@ =~= old(out)@ + enc_task(t@));
    }
}

impl TaskListing {
    /// Serialize the listing to its token-stream representation.
    pub fn encode(&self) -> (out: Vec<u64>)
        ensures
            out@ == enc_listing(self@),
            listing_encodable(self@),
    {
        let mut out: Vec<u64> = Vec::new();
        out.push(self.all_tasks.len() as u64);
        let ghost base = out@;
        proof {
            assert(self@.skip(0) =~= self@);
        }
        let mut i: usize = 0;
        while i < self.all_tasks.len()
            invariant
                i <= self.all_tasks.len(),
                self@.len() == self.all_tasks.len(),
                out@ + enc_tasks_seq(self@.skip(i as int)) == base + enc_tasks_seq(self@),
                base == seq![self@.len() as u64],
                forall|j: int| 0 <= j < i ==> task_encodable(#[trigger] self@[j]),
            decreases self.all_tasks.len() - i,
        {
            proof {
                let rest = self@.skip(i as int);
                assert(rest[0] == self@[i as int]);
                assert(rest.drop_first() =~= self@.skip(i + 1));
            }
            encode_task(&mut out, &self.all_tasks[i]);
            i += 1;
        }
        proof {
            assert(self@.skip(self@.len() as int) =~= Seq::<TaskV>::empty());
            assert(out@ =~= enc_listing(self@));
        }
        out
    }
}

// ---------------------------------------------------------------------
// Executable parsing
// ---------------------------------------------------------------------

fn parse_u64(v: &Vec<u64>, pos: usize) -> (r: Option<(u64, usize)>)
    ensures
        match r {
            Some(x) => p_u64(v@, pos as int) == Some((x.0, x.1 as int)) && x.1 <= v@.len(),
            None => p_u64(v@, pos as int) is None,
        },
{
    if pos < v.len() {
        Some((v[pos], pos + 1))
    } else {
        None
    }
}

fn parse_str(v: &Vec<u64>, pos: usize) -> (r: Option<(String, usize)>)
    ensures
        match r {
            Some(x) => p_str(v@, pos as int) == Some((x.0@, x.1 as int)) && x.1 <= v@.len(),
            None => p_str(v@, pos as int) is None,
        },
{
    let (n, p) = match parse_u64(v, pos) {
        None => {
            return None;
        },
        Some(x) => x,
    };
    if n > (v.len() - p) as u64 {
        return None;
    }
    let count = n as usize;
    let mut out = String::new();
    let mut i: usize = 0;
    while i < count
        invariant
            p_u64(v@, pos as int) == Some((n, p as int)),
            p + count <= v@.len(),
            v@.len() <= usize::MAX,
            count == n,
            i <= count,
            out@.len() == i,
            forall|j: int|
                0 <= j < i ==> v@[p + j] <= u32::MAX && is_unicode_scalar(
                    (#[trigger] v@[p + j]) as u32,
                ) && out@[j] == ((v@[p + j] as u32) as char),
        decreases count - i,
    {
        proof {
            assert(p + i < v@.len());
        }
        let tok = v[p + i];
        if tok > u32::MAX as u64 {
            proof {
                assert(!(v@[p + i] <= u32::MAX));
            }
            return None;
        }
        match char::from_u32(tok as u32) {
            None => {
                proof {
                    assert(!is_unicode_scalar(v@[p + i] as u32));
                }
                return None;
            },
            Some(c) => {
                push_char(&mut out, c);
                proof {
                    assert(c as u32 == tok as u32);
                    assert(((v@[p + i] as u32) as char) == c) by {
                        vstd::utf8::char_u32_cast(c, tok as u32);
                    }
                }
            },
        }
        i += 1;
    }
    proof {
        assert(out@ =~= Seq::new(n as nat, |j: int| (v@[p + j] as u32) as char));
    }
    Some((out, p + count))
}

fn parse_opt_u32(v: &Vec<u64>, pos: usize) -> (r: Option<(Option<u32>, usize)>)
    ensures
        match r {
            Some(x) => p_opt_u32(v@, pos as int) == Some((x.0, x.1 as int)) && x.1 <= v@.len(),
            None => p_opt_u32(v@, pos as int) is None,
        },
{
    let (tag, p) = match parse_u64(v, pos) {
        None => {
            return None;
        },
        Some(x) => x,
    };
    if tag == 0 {
        Some((None, p))
    } else if tag == 1 {
        let (x, p2) = match parse_u64(v, p) {
            None => {
                return None;
            },
            Some(x) => x,
        };
        if x <= u32::MAX as u64 {
            Some((Some(x as u32), p2))
        } else {
            None
        }
    } else {
        None
    }
}

fn parse_remark(v: &Vec<u64>, pos: usize) -> (r: Option<(Remark, usize)>)
    ensures
        match r {
            Some(x) => p_remark(v@, pos as int) == Some((x.0@, x.1 as int)) && x.1 <= v@.len(),
            None => p_remark(v@, pos as int) is None,
        },
{
    let (datetime, p1) = match parse_u64(v, pos) {
        None => {
            return None;
        },
        Some(x) => x,
    };
    let (text, p2) = match parse_str(v, p1) {
        None => {
            return None;
        },
        Some(x) => x,
    };
    Some((Remark { datetime, remark: text }, p2))
}

fn parse_opt_remark(v: &Vec<u64>, pos: usize) -> (r: Option<(Option<Remark>, usize)>)
    ensures
        match r {
            Some(x) => p_opt_remark(v@, pos as int) == Some(
                (
                    match x.0 {
                        Some(rem) => Some(rem@),
                        None => None,
                    },
                    x.1 as int,
                ),
            ) && x.1 <= v@.len(),
            None => p_opt_remark(v@, pos as int) is None,
        },
{
    let (tag, p) = match parse_u64(v, pos) {
        None => {
            return None;
        },
        Some(x) => x,
    };
    if tag == 0 {
        Some((None, p))
    } else if tag == 1 {
        match parse_remark(v, p) {
            None => None,
            Some((rem, p2)) => Some((Some(rem), p2)),
        }
    } else {
        None
    }
}

fn parse_completion(v: &Vec<u64>, pos: usize) -> (r: Option<(Completion, usize)>)
    ensures
        match r {
            Some(x) => p_completion(v@, pos as int) == Some((x.0@, x.1 as int)) && x.1
                <= v@.len(),
            None => p_completion(v@, pos as int) is None,
        },
{
    let (datetime, p1) = match parse_u64(v, pos) {
        None => {
            return None;
        },
        Some(x) => x,
    };
    let (local_day, p2) = match parse_u64(v, p1) {
        None => {
            return None;
        },
        Some(x) => x,
    };
    let (hour, p3) = match parse_u64(v, p2) {
        None => {
            return None;
        },
        Some(x) => x,
    };
    let (minute, p4) = match parse_u64(v, p3) {
        None => {
            return None;
        },
        Some(x) => x,
    };
    let (remark, p5) = match parse_opt_remark(v, p4) {
        None => {
            return None;
        },
        Some(x) => x,
    };
    if local_day <= MAX_DAY as u64 && hour < 24 && minute < 60 {
        Some(
            (
                Completion {
                    datetime,
                    local_day: local_day as u32,
                    hour: hour as u32,
                    minute: minute as u32,
                    remark,
                },
                p5,
            ),
        )
    } else {
        None
    }
}

fn parse_detail(v: &Vec<u64>, pos: usize) -> (r: Option<(TaskDetails, usize)>)
    ensures
        match r {
            Some(x) => p_detail(v@, pos as int) == Some((x.0@, x.1 as int)) && x.1 <= v@.len(),
            None => p_detail(v@, pos as int) is None,
        },
{
    let (revised, p1) = match parse_u64(v, pos) {
        None => {
            return None;
        },
        Some(x) => x,
    };
    let (revision_id, p2) = match parse_u64(v, p1) {
        None => {
            return None;
        },
        Some(x) => x,
    };
    let (sync_time, p3) = match parse_opt_u32(v, p2) {
        None => {
            return None;
        },
        Some(x) => x,
    };
    let (description, p4) = match parse_str(v, p3) {
        None => {
            return None;
        },
        Some(x) => x,
    };
    Some((TaskDetails { revised, revision_id, description, sync_time }, p4))
}

/// A successful sequence parse yields exactly as many entries as asked for.
proof fn lemma_p_details_seq_len(s: Seq<u64>, pos: int, n: nat)
    ensures
        p_details_seq(s, pos, n) matches Some(x) ==> x.0.len() == n,
    decreases n,
{
    if n > 0 {
        match p_detail(s, pos) {
            Some((d, p)) => {
                lemma_p_details_seq_len(s, p, (n - 1) as nat);
            },
            None => {},
        }
    }
}

fn parse_details_vec(v: &Vec<u64>, pos: usize, n: u64) -> (r: Option<(Vec<TaskDetails>, usize)>)
    ensures
        match r {
            Some(x) => p_details_seq(v@, pos as int, n as nat) == Some(
                (x.0@.map_values(|d: TaskDetails| d@), x.1 as int),
            ),
            None => p_details_seq(v@, pos as int, n as nat) is None,
        },
{
    let mut acc: Vec<TaskDetails> = Vec::new();
    let mut cur = pos;
    let mut i: u64 = 0;
    proof {
        assert(acc@.map_values(|d: TaskDetails| d@) =~= Seq::<DetailsV>::empty());
    }
    while i < n
        invariant
            i <= n,
            match p_details_seq(v@, pos as int, n as nat) {
                Some(full) => p_details_seq(v@, cur as int, (n - i) as nat) == Some(
                    (full.0.skip(i as int), full.1),
                ) && acc@.map_values(|d: TaskDetails| d@) == full.0.take(i as int),
                None => p_details_seq(v@, cur as int, (n - i) as nat) is None,
            },
        decreases n - i,
    {
        let (d, p) = match parse_detail(v, cur) {
            None => {
                return None;
            },
            Some(x) => x,
        };
        proof {
            lemma_p_details_seq_len(v@, pos as int, n as nat);
            match p_details_seq(v@, pos as int, n as nat) {
                Some(full) => {
                    let rest = full.0.skip(i as int);
                    assert(rest.drop_first() =~= full.0.skip(i as int + 1));
                    assert(rest =~= seq![rest[0]] + rest.drop_first());
                    assert(acc@.map_values(|dd: TaskDetails| dd@).push(d@) =~= full.0.take(
                        i as int + 1,
                    ));
                },
                None => {},
            }
        }
        let ghost acc0 = acc@;
        acc.push(d);
        proof {
            assert(acc@.map_values(|dd: TaskDetails| dd@) =~= acc0.map_values(
                |dd: TaskDetails| dd@,
            ).push(d@));
        }
        cur = p;
        i += 1;
    }
    proof {
        lemma_p_details_seq_len(v@, pos as int, n as nat);
        match p_details_seq(v@, pos as int, n as nat) {
            Some(full) => {
                assert(full.0.skip(n as int) =~= Seq::<DetailsV>::empty());
                assert(full.0.take(n as int) =~= full.0);
            },
            None => {},
        }
    }
    Some((acc, cur))
}

/// A successful sequence parse yields exactly as many entries as asked
/// for, and every entry is a well-formed completion.
proof fn lemma_p_completions_seq_len(s: Seq<u64>, pos: int, n: nat)
    ensures
        p_completions_seq(s, pos, n) matches Some(x) ==> x.0.len() == n && forall|i: int|
            0 <= i < x.0.len() ==> (#[trigger] x.0[i]).wf(),
    decreases n,
{
    if n > 0 {
        match p_completion(s, pos) {
            Some((c, p)) => {
                lemma_p_completions_seq_len(s, p, (n - 1) as nat);
            },
            None => {},
        }
    }
}

fn parse_completions_vec(v: &Vec<u64>, pos: usize, n: u64) -> (r: Option<
    (Vec<Completion>, usize),
>)
    ensures
        match r {
            Some(x) => p_completions_seq(v@, pos as int, n as nat) == Some(
                (x.0@.map_values(|c: Completion| c@), x.1 as int),
            ),
            None => p_completions_seq(v@, pos as int, n as nat) is None,
        },
{
    let mut acc: Vec<Completion> = Vec::new();
    let mut cur = pos;
    let mut i: u64 = 0;
    proof {
        assert(acc@.map_values(|c: Completion| c@) =~= Seq::<CompletionV>::empty());
    }
    while i < n
        invariant
            i <= n,
            match p_completions_seq(v@, pos as int, n as nat) {
                Some(full) => p_completions_seq(v@, cur as int, (n - i) as nat) == Some(
                    (full.0.skip(i as int), full.1),
                ) && acc@.map_values(|c: Completion| c@) == full.0.take(i as int),
                None => p_completions_seq(v@, cur as int, (n - i) as nat) is None,
            },
        decreases n - i,
    {
        let (c, p) = match parse_completion(v, cur) {
            None => {
                return None;
            },
            Some(x) => x,
        };
        proof {
            lemma_p_completions_seq_len(v@, pos as int, n as nat);
            match p_completions_seq(v@, pos as int, n as nat) {
                Some(full) => {
                    let rest = full.0.skip(i as int);
                    assert(rest.drop_first() =~= full.0.skip(i as int + 1));
                    assert(rest =~= seq![rest[0]] + rest.drop_first());
                    assert(acc@.map_values(|cc: Completion| cc@).push(c@) =~= full.0.take(
                        i as int + 1,
                    ));
                },
                None => {},
            }
        }
        let ghost acc0 = acc@;
        acc.push(c);
        proof {
            assert(acc@.map_values(|cc: Completion| cc@) =~= acc0.map_values(
                |cc: Completion| cc@,
            ).push(c@));
        }
        cur = p;
        i += 1;
    }
    proof {
        lemma_p_completions_seq_len(v@, pos as int, n as nat);
        match p_completions_seq(v@, pos as int, n as nat) {
            Some(full) => {
                assert(full.0.skip(n as int) =~= Seq::<CompletionV>::empty());
                assert(full.0.take(n as int) =~= full.0);
            },
            None => {},
        }
    }
    Some((acc, cur))
}

/// A successful sequence parse yields exactly as many entries as asked for.
proof fn lemma_p_remarks_seq_len(s: Seq<u64>, pos: int, n: nat)
    ensures
        p_remarks_seq(s, pos, n) matches Some(x) ==> x.0.len() == n,
    decreases n,
{
    if n > 0 {
        match p_remark(s, pos) {
            Some((rr, p)) => {
                lemma_p_remarks_seq_len(s, p, (n - 1) as nat);
            },
            None => {},
        }
    }
}

fn parse_remarks_vec(v: &Vec<u64>, pos: usize, n: u64) -> (r: Option<(Vec<Remark>, usize)>)
    ensures
        match r {
            Some(x) => p_remarks_seq(v@, pos as int, n as nat) == Some(
                (x.0@.map_values(|rr: Remark| rr@), x.1 as int),
            ),
            None => p_remarks_seq(v@, pos as int, n as nat) is None,
        },
{
    let mut acc: Vec<Remark> = Vec::new();
    let mut cur = pos;
    let mut i: u64 = 0;
    proof {
        assert(acc@.map_values(|rr: Remark| rr@) =~= Seq::<RemarkV>::empty());
    }
    while i < n
        invariant
            i <= n,
            match p_remarks_seq(v@, pos as int, n as nat) {
                Some(full) => p_remarks_seq(v@, cur as int, (n - i) as nat) == Some(
                    (full.0.skip(i as int), full.1),
                ) && acc@.map_values(|rr: Remark| rr@) == full.0.take(i as int),
                None => p_remarks_seq(v@, cur as int, (n - i) as nat) is None,
            },
        decreases n - i,
    {
        let (rem, p) = match parse_remark(v, cur) {
            None => {
                return None;
            },
            Some(x) => x,
        };
        proof {
            lemma_p_remarks_seq_len(v@, pos as int, n as nat);
            match p_remarks_seq(v@, pos as int, n as nat) {
                Some(full) => {
                    let rest = full.0.skip(i as int);
                    assert(rest.drop_first() =~= full.0.skip(i as int + 1));
                    assert(rest =~= seq![rest[0]] + rest.drop_first());
                    assert(acc@.map_values(|rr: Remark| rr@).push(rem@) =~= full.0.take(
                        i as int + 1,
                    ));
                },
                None => {},
            }
        }
        let ghost acc0 = acc@;
        acc.push(rem);
        proof {
            assert(acc@.map_values(|rr: Remark| rr@) =~= acc0.map_values(
                |rr: Remark| rr@,
            ).push(rem@));
        }
        cur = p;
        i += 1;
    }
    proof {
        lemma_p_remarks_seq_len(v@, pos as int, n as nat);
        match p_remarks_seq(v@, pos as int, n as nat) {
            Some(full) => {
                assert(full.0.skip(n as int) =~= Seq::<RemarkV>::empty());
                assert(full.0.take(n as int) =~= full.0);
            },
            None => {},
        }
    }
    Some((acc, cur))
}

/// Check that revision IDs strictly decrease along the revision history
/// (most recent revision first).
fn details_strictly_decreasing(ds: &Vec<TaskDetails>) -> (b: bool)
    ensures
        b == (forall|i: int, j: int|
            0 <= i < j < ds@.len() ==> (#[trigger] ds@[i])@.revision_id > (
            #[trigger] ds@[j])@.revision_id),
{
    let mut k: usize = 1;
    while k < ds.len()
        invariant
            1 <= k,
            forall|i: int, j: int|
                0 <= i < j < k && j < ds@.len() ==> (#[trigger] ds@[i])@.revision_id > (
                #[trigger] ds@[j])@.revision_id,
        decreases ds.len() - k,
    {
        if ds[k - 1].revision_id <= ds[k].revision_id {
            return false;
        }
        proof {
            assert forall|i: int, j: int|
                0 <= i < j < k + 1 && j < ds@.len() implies (#[trigger] ds@[i])@.revision_id > (
            #[trigger] ds@[j])@.revision_id by {
                if j == k && i < k - 1 {
                    assert(ds@[i]@.revision_id > ds@[k - 1]@.revision_id);
                }
            }
        }
        k += 1;
    }
    true
}

fn parse_task(v: &Vec<u64>, pos: usize) -> (r: Option<(Task, usize)>)
    ensures
        match r {
            Some(x) => p_task(v@, pos as int) == Some((x.0@, x.1 as int)) && x.0@.wf(),
            None => p_task(v@, pos as int) is None,
        },
{
    let (nd, p1) = match parse_u64(v, pos) {
        None => {
            return None;
        },
        Some(x) => x,
    };
    let (details, p2) = match parse_details_vec(v, p1, nd) {
        None => {
            return None;
        },
        Some(x) => x,
    };
    let (nc, p3) = match parse_u64(v, p2) {
        None => {
            return None;
        },
        Some(x) => x,
    };
    let (completions, p4) = match parse_completions_vec(v, p3, nc) {
        None => {
            return None;
        },
        Some(x) => x,
    };
    let (nr, p5) = match parse_u64(v, p4) {
        None => {
            return None;
        },
        Some(x) => x,
    };
    let (remarks, p6) = match parse_remarks_vec(v, p5, nr) {
        None => {
            return None;
        },
        Some(x) => x,
    };
    proof {
        lemma_p_completions_seq_len(v@, p3 as int, nc as nat);
    }
    let ok = details.len() >= 1 && details_strictly_decreasing(&details);
    let task = Task { detail_history: details, completions, remarks };
    if ok {
        proof {
            assert(task@.wf());
        }
        Some((task, p6))
    } else {
        proof {
            if task.detail_history@.len() >= 1 {
                let (i, j) = choose|i: int, j: int|
                    #![auto]
                    0 <= i < j < task.detail_history@.len() && !((task.detail_history@[i])@.revision_id
                        > (task.detail_history@[j])@.revision_id);
                assert(task@.details[i] == task.detail_history@[i]@);
                assert(task@.details[j] == task.detail_history@[j]@);
            }
            assert(!task@.wf());
        }
        None
    }
}

/// A successful sequence parse yields exactly as many entries as asked
/// for, and every entry is a well-formed task.
proof fn lemma_p_tasks_seq_len(s: Seq<u64>, pos: int, n: nat)
    ensures
        p_tasks_seq(s, pos, n) matches Some(x) ==> x.0.len() == n && forall|i: int|
            0 <= i < x.0.len() ==> (#[trigger] x.0[i]).wf(),
    decreases n,
{
    if n > 0 {
        match p_task(s, pos) {
            Some((t, p)) => {
                lemma_p_tasks_seq_len(s, p, (n - 1) as nat);
            },
            None => {},
        }
    }
}

fn parse_tasks_vec(v: &Vec<u64>, pos: usize, n: u64) -> (r: Option<(Vec<Task>, usize)>)
    ensures
        match r {
            Some(x) => p_tasks_seq(v@, pos as int, n as nat) == Some(
                (x.0@.map_values(|t: Task| t@), x.1 as int),
            ),
            None => p_tasks_seq(v@, pos as int, n as nat) is None,
        },
{
    let mut acc: Vec<Task> = Vec::new();
    let mut cur = pos;
    let mut i: u64 = 0;
    proof {
        assert(acc@.map_values(|t: Task| t@) =~= Seq::<TaskV>::empty());
    }
    while i < n
        invariant
            i <= n,
            match p_tasks_seq(v@, pos as int, n as nat) {
                Some(full) => p_tasks_seq(v@, cur as int, (n - i) as nat) == Some(
                    (full.0.skip(i as int), full.1),
                ) && acc@.map_values(|t: Task| t@) == full.0.take(i as int),
                None => p_tasks_seq(v@, cur as int, (n - i) as nat) is None,
            },
        decreases n - i,
    {
        let (t, p) = match parse_task(v, cur) {
            None => {
                return None;
            },
            Some(x) => x,
        };
        proof {
            lemma_p_tasks_seq_len(v@, pos as int, n as nat);
            match p_tasks_seq(v@, pos as int, n as nat) {
                Some(full) => {
                    let rest = full.0.skip(i as int);
                    assert(rest.drop_first() =~= full.0.skip(i as int + 1));
                    assert(rest =~= seq![rest[0]] + rest.drop_first());
                    assert(acc@.map_values(|tt: Task| tt@).push(t@) =~= full.0.take(
                        i as int + 1,
                    ));
                },
                None => {},
            }
        }
        let ghost acc0 = acc@;
        acc.push(t);
        proof {
            assert(acc@.map_values(|tt: Task| tt@) =~= acc0.map_values(|tt: Task| tt@).push(t@));
        }
        cur = p;
        i += 1;
    }
    proof {
        lemma_p_tasks_seq_len(v@, pos as int, n as nat);
        match p_tasks_seq(v@, pos as int, n as nat) {
            Some(full) => {
                assert(full.0.skip(n as int) =~= Seq::<TaskV>::empty());
                assert(full.0.take(n as int) =~= full.0);
            },
            None => {},
        }
    }
    Some((acc, cur))
}

impl TaskListing {
    /// Parse a token stream back into a task listing.  Returns `None`
    /// exactly when the stream is not a complete, valid encoding; whatever
    /// it accepts is well formed.
    pub fn parse(tokens: &Vec<u64>) -> (r: Option<TaskListing>)
        ensures
            match r {
                Some(l) => p_listing(tokens@) == Some(l@) && l.wf(),
                None => p_listing(tokens@) is None,
            },
    {
        let (n, p) = match parse_u64(tokens, 0) {
            None => {
                return None;
            },
            Some(x) => x,
        };
        let (tasks, p2) = match parse_tasks_vec(tokens, p, n) {
            None => {
                return None;
            },
            Some(x) => x,
        };
        if p2 != tokens.len() {
            return None;
        }
        proof {
            lemma_p_tasks_seq_len(tokens@, p as int, n as nat);
        }
        Some(TaskListing { all_tasks: tasks })
    }
}

// ---------------------------------------------------------------------
// Round trip: parsing an encoding restores the listing
// ---------------------------------------------------------------------

/// The tokens of `part` stand in `s` beginning at `pos`.
pub open spec fn tokens_at(s: Seq<u64>, pos: int, part: Seq<u64>) -> bool {
    &&& 0 <= pos
    &&& pos + part.len() <= s.len()
    &&& s.subrange(pos, pos + part.len()) == part
}

/// Adjacent parts of the stream can be read off one after the other.
proof fn lemma_tokens_at_split(s: Seq<u64>, pos: int, a: Seq<u64>, b: Seq<u64>)
    requires
        tokens_at(s, pos, a + b),
    ensures
        tokens_at(s, pos, a),
        tokens_at(s, pos + a.len(), b),
{
    assert forall|i: int| 0 <= i < a.len() implies s[pos + i] == a[i] by {
        assert(s.subrange(pos, pos + (a + b).len())[i] == (a + b)[i]);
    }
    assert forall|i: int| 0 <= i < b.len() implies s[pos + a.len() + i] == b[i] by {
        assert(s.subrange(pos, pos + (a + b).len())[a.len() + i] == (a + b)[a.len() + i]);
    }
    assert(s.subrange(pos, pos + a.len()) =~= a);
    assert(s.subrange(pos + a.len(), pos + a.len() + b.len()) =~= b);
}

proof fn lemma_p_u64_enc(s: Seq<u64>, pos: int, x: u64)
    requires
        tokens_at(s, pos, seq![x]),
    ensures
        p_u64(s, pos) == Some((x, pos + 1)),
{
    assert(s.subrange(pos, pos + 1)[0] == x);
}

proof fn lemma_p_str_enc(s: Seq<u64>, pos: int, text: Seq<char>)
    requires
        tokens_at(s, pos, enc_str(text)),
        str_encodable(text),
    ensures
        p_str(s, pos) == Some((text, pos + enc_str(text).len())),
{
    let m = text.map_values(|c: char| enc_char(c));
    assert(enc_str(text) == seq![text.len() as u64] + m);
    lemma_tokens_at_split(s, pos, seq![text.len() as u64], m);
    lemma_p_u64_enc(s, pos, text.len() as u64);
    let n = text.len() as u64;
    let p = pos + 1;
    assert(n as int == text.len());
    assert forall|i: int| 0 <= i < n implies s[p + i] <= u32::MAX && is_unicode_scalar(
        (#[trigger] s[p + i]) as u32,
    ) by {
        assert(s.subrange(p, p + m.len())[i] == m[i]);
        assert(s[p + i] == enc_char(text[i]));
        vstd::utf8::char_is_scalar(text[i]);
        assert(is_unicode_scalar(text[i] as u32));
    }
    assert(Seq::new(n as nat, |i: int| (s[p + i] as u32) as char) =~= text) by {
        assert forall|i: int| 0 <= i < n implies ((s[p + i] as u32) as char) == text[i] by {
            assert(s.subrange(p, p + m.len())[i] == m[i]);
            assert(s[p + i] == enc_char(text[i]));
            vstd::utf8::char_u32_cast(text[i], text[i] as u32);
        }
    }
}

proof fn lemma_p_opt_u32_enc(s: Seq<u64>, pos: int, o: Option<u32>)
    requires
        tokens_at(s, pos, enc_opt_u32(o)),
    ensures
        p_opt_u32(s, pos) == Some((o, pos + enc_opt_u32(o).len())),
{
    match o {
        None => {
            assert(s.subrange(pos, pos + 1)[0] == 0u64);
        },
        Some(v) => {
            assert(s.subrange(pos, pos + 2)[0] == 1u64);
            assert(s.subrange(pos, pos + 2)[1] == v as u64);
        },
    }
}

proof fn lemma_p_remark_enc(s: Seq<u64>, pos: int, r: RemarkV)
    requires
        tokens_at(s, pos, enc_remark(r)),
        remark_encodable(r),
    ensures
        p_remark(s, pos) == Some((r, pos + enc_remark(r).len())),
{
    lemma_tokens_at_split(s, pos, seq![r.datetime], enc_str(r.text));
    lemma_p_u64_enc(s, pos, r.datetime);
    lemma_p_str_enc(s, pos + 1, r.text);
}

proof fn lemma_p_opt_remark_enc(s: Seq<u64>, pos: int, o: Option<RemarkV>)
    requires
        tokens_at(s, pos, enc_opt_remark(o)),
        match o {
            Some(r) => remark_encodable(r),
            None => true,
        },
    ensures
        p_opt_remark(s, pos) == Some((o, pos + enc_opt_remark(o).len())),
{
    match o {
        None => {
            assert(s.subrange(pos, pos + 1)[0] == 0u64);
        },
        Some(r) => {
            assert(enc_opt_remark(o) == seq![1u64] + enc_remark(r));
            lemma_tokens_at_split(s, pos, seq![1u64], enc_remark(r));
            assert(s.subrange(pos, pos + 1)[0] == 1u64);
            lemma_p_remark_enc(s, pos + 1, r);
        },
    }
}

proof fn lemma_p_completion_enc(s: Seq<u64>, pos: int, c: CompletionV)
    requires
        tokens_at(s, pos, enc_completion(c)),
        c.wf(),
        match c.remark {
            Some(r) => remark_encodable(r),
            None => true,
        },
    ensures
        p_completion(s, pos) == Some((c, pos + enc_completion(c).len())),
{
    let head = seq![c.datetime, c.local_day as u64, c.hour as u64, c.minute as u64];
    assert(enc_completion(c) == head + enc_opt_remark(c.remark));
    lemma_tokens_at_split(s, pos, head, enc_opt_remark(c.remark));
    assert(s.subrange(pos, pos + 4)[0] == c.datetime);
    assert(s.subrange(pos, pos + 4)[1] == c.local_day as u64);
    assert(s.subrange(pos, pos + 4)[2] == c.hour as u64);
    assert(s.subrange(pos, pos + 4)[3] == c.minute as u64);
    lemma_p_opt_remark_enc(s, pos + 4, c.remark);
}

proof fn lemma_p_detail_enc(s: Seq<u64>, pos: int, d: DetailsV)
    requires
        tokens_at(s, pos, enc_detail(d)),
        str_encodable(d.description),
    ensures
        p_detail(s, pos) == Some((d, pos + enc_detail(d).len())),
{
    let head = seq![d.revised, d.revision_id];
    let mid = enc_opt_u32(d.sync_time);
    let tail = enc_str(d.description);
    assert(enc_detail(d) =~= head + (mid + tail));
    lemma_tokens_at_split(s, pos, head, mid + tail);
    lemma_tokens_at_split(s, pos + 2, mid, tail);
    assert(s.subrange(pos, pos + 2)[0] == d.revised);
    assert(s.subrange(pos, pos + 2)[1] == d.revision_id);
    lemma_p_opt_u32_enc(s, pos + 2, d.sync_time);
    lemma_p_str_enc(s, pos + 2 + mid.len(), d.description);
}

proof fn lemma_p_details_seq_enc(s: Seq<u64>, pos: int, ds: Seq<DetailsV>)
    requires
        tokens_at(s, pos, enc_details_seq(ds)),
        forall|i: int| 0 <= i < ds.len() ==> str_encodable((#[trigger] ds[i]).description),
    ensures
        p_details_seq(s, pos, ds.len()) == Some((ds, pos + enc_details_seq(ds).len())),
    decreases ds.len(),
{
    if ds.len() == 0 {
        assert(ds =~= Seq::<DetailsV>::empty());
    } else {
        lemma_tokens_at_split(s, pos, enc_detail(ds[0]), enc_details_seq(ds.drop_first()));
        lemma_p_detail_enc(s, pos, ds[0]);
        lemma_p_details_seq_enc(s, pos + enc_detail(ds[0]).len(), ds.drop_first());
        assert(ds =~= seq![ds[0]] + ds.drop_first());
    }
}

proof fn lemma_p_completions_seq_enc(s: Seq<u64>, pos: int, cs: Seq<CompletionV>)
    requires
        tokens_at(s, pos, enc_completions_seq(cs)),
        forall|i: int| 0 <= i < cs.len() ==> (#[trigger] cs[i]).wf(),
        forall|i: int|
            0 <= i < cs.len() ==> match (#[trigger] cs[i]).remark {
                Some(r) => remark_encodable(r),
                None => true,
            },
    ensures
        p_completions_seq(s, pos, cs.len()) == Some((cs, pos + enc_completions_seq(cs).len())),
    decreases cs.len(),
{
    if cs.len() == 0 {
        assert(cs =~= Seq::<CompletionV>::empty());
    } else {
        lemma_tokens_at_split(s, pos, enc_completion(cs[0]), enc_completions_seq(cs.drop_first()));
        lemma_p_completion_enc(s, pos, cs[0]);
        lemma_p_completions_seq_enc(s, pos + enc_completion(cs[0]).len(), cs.drop_first());
        assert(cs =~= seq![cs[0]] + cs.drop_first());
    }
}

proof fn lemma_p_remarks_seq_enc(s: Seq<u64>, pos: int, rs: Seq<RemarkV>)
    requires
        tokens_at(s, pos, enc_remarks_seq(rs)),
        forall|i: int| 0 <= i < rs.len() ==> remark_encodable(#[trigger] rs[i]),
    ensures
        p_remarks_seq(s, pos, rs.len()) == Some((rs, pos + enc_remarks_seq(rs).len())),
    decreases rs.len(),
{
    if rs.len() == 0 {
        assert(rs =~= Seq::<RemarkV>::empty());
    } else {
        lemma_tokens_at_split(s, pos, enc_remark(rs[0]), enc_remarks_seq(rs.drop_first()));
        lemma_p_remark_enc(s, pos, rs[0]);
        lemma_p_remarks_seq_enc(s, pos + enc_remark(rs[0]).len(), rs.drop_first());
        assert(rs =~= seq![rs[0]] + rs.drop_first());
    }
}

proof fn lemma_p_task_enc(s: Seq<u64>, pos: int, t: TaskV)
    requires
        tokens_at(s, pos, enc_task(t)),
        t.wf(),
        task_encodable(t),
    ensures
        p_task(s, pos) == Some((t, pos + enc_task(t).len())),
{
    let a1 = seq![t.details.len() as u64];
    let a2 = enc_details_seq(t.details);
    let a3 = seq![t.completions.len() as u64];
    let a4 = enc_completions_seq(t.completions);
    let a5 = seq![t.remarks.len() as u64];
    let a6 = enc_remarks_seq(t.remarks);
    assert(enc_task(t) =~= a1 + (a2 + (a3 + (a4 + (a5 + a6)))));
    lemma_tokens_at_split(s, pos, a1, a2 + (a3 + (a4 + (a5 + a6))));
    let p1 = pos + 1;
    lemma_tokens_at_split(s, p1, a2, a3 + (a4 + (a5 + a6)));
    let p2 = p1 + a2.len();
    lemma_tokens_at_split(s, p2, a3, a4 + (a5 + a6));
    let p3 = p2 + 1;
    lemma_tokens_at_split(s, p3, a4, a5 + a6);
    let p4 = p3 + a4.len();
    lemma_tokens_at_split(s, p4, a5, a6);
    let p5 = p4 + 1;
    lemma_p_u64_enc(s, pos, t.details.len() as u64);
    lemma_p_details_seq_enc(s, p1, t.details);
    lemma_p_u64_enc(s, p2, t.completions.len() as u64);
    lemma_p_completions_seq_enc(s, p3, t.completions);
    lemma_p_u64_enc(s, p4, t.remarks.len() as u64);
    lemma_p_remarks_seq_enc(s, p5, t.remarks);
}

proof fn lemma_p_tasks_seq_enc(s: Seq<u64>, pos: int, l: Seq<TaskV>)
    requires
        tokens_at(s, pos, enc_tasks_seq(l)),
        forall|i: int| 0 <= i < l.len() ==> (#[trigger] l[i]).wf(),
        forall|i: int| 0 <= i < l.len() ==> task_encodable(#[trigger] l[i]),
    ensures
        p_tasks_seq(s, pos, l.len()) == Some((l, pos + enc_tasks_seq(l).len())),
    decreases l.len(),
{
    if l.len() == 0 {
        assert(l =~= Seq::<TaskV>::empty());
    } else {
        lemma_tokens_at_split(s, pos, enc_task(l[0]), enc_tasks_seq(l.drop_first()));
        lemma_p_task_enc(s, pos, l[0]);
        lemma_p_tasks_seq_enc(s, pos + enc_task(l[0]).len(), l.drop_first());
        assert(l =~= seq![l[0]] + l.drop_first());
    }
}

/// Law: the codec round-trips.  Parsing the encoding of any well-formed
/// listing yields exactly that listing: task order, revision order,
/// completion timestamps and remarks all survive the trip through the
/// persisted representation.
pub proof fn lemma_encode_parse_round_trip(l: Seq<TaskV>)
    requires
        listing_encodable(l),
        forall|i: int| 0 <= i < l.len() ==> (#[trigger] l[i]).wf(),
    ensures
        p_listing(enc_listing(l)) == Some(l),
{
    let s = enc_listing(l);
    assert(s.subrange(0, s.len() as int) =~= s);
    assert(tokens_at(s, 0, seq![l.len() as u64] + enc_tasks_seq(l)));
    lemma_tokens_at_split(s, 0, seq![l.len() as u64], enc_tasks_seq(l));
    lemma_p_u64_enc(s, 0, l.len() as u64);
    lemma_p_tasks_seq_enc(s, 1, l);
}

} // verus!
