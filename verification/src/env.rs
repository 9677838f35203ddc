//! The environment accessor: a single value, or every variable name scanned
//! out of a flat buffer that ends with two consecutive null units.

use crate::cstr16::{first_nul, lemma_first_nul, CStr16};
use vstd::prelude::*;
use vstd::slice::slice_subrange;

verus! {

/// The names found by scanning `buf` from index `from`, which is the start of
/// a run; `nulls` counts the null units directly before `from`.
///
/// A run is a block of units that are not null, closed by one null unit, and
/// its name includes that null. A null unit at the start of a run ends the
/// scan if a null unit came directly before it. A run that the buffer does
/// not close is no name.
pub open spec fn names_from(buf: Seq<u16>, from: int, nulls: int) -> Seq<Seq<u16>>
    decreases buf.len() - from,
{
    if from < 0 || from >= buf.len() {
        Seq::empty()
    } else if buf[from] == 0 {
        if nulls >= 1 {
            Seq::empty()
        } else {
            names_from(buf, from + 1, 1)
        }
    } else {
        let end = first_nul(buf, from);
        if from <= end < buf.len() {
            seq![buf.subrange(from, end + 1)] + names_from(buf, end + 1, 1)
        } else {
            Seq::empty()
        }
    }
}

/// The variable names that a buffer of the firmware holds, in order.
pub open spec fn env_names(buf: Seq<u16>) -> Seq<Seq<u16>> {
    names_from(buf, 0, 0)
}

/// The last two units of `buf` are null.
pub open spec fn ends_with_double_nul(buf: Seq<u16>) -> bool {
    buf.len() >= 2 && buf[buf.len() - 1] == 0 && buf[buf.len() - 2] == 0
}

/// The number of units at the end of `buf` that are not null.
pub open spec fn trailing_run(buf: Seq<u16>) -> nat
    decreases buf.len(),
{
    if buf.len() == 0 || buf.last() == 0 {
        0
    } else {
        1 + trailing_run(buf.drop_last())
    }
}

/// The run that a unit closes when it follows `seen`: its start and its
/// length, the closing null included.
pub open spec fn run_closed_by(seen: Seq<u16>, unit: u16) -> Option<(usize, usize)> {
    if unit == 0 && trailing_run(seen) > 0 {
        Some(((seen.len() - trailing_run(seen)) as usize, (trailing_run(seen) + 1) as usize))
    } else {
        None
    }
}

/// The trailing run of `buf` holds no null unit, and a null unit or the start
/// of `buf` stands before it.
pub proof fn lemma_trailing_run(buf: Seq<u16>)
    ensures
        trailing_run(buf) <= buf.len(),
        forall|j: int| buf.len() - trailing_run(buf) <= j < buf.len() ==> buf[j] != 0,
        trailing_run(buf) < buf.len() ==> buf[buf.len() - trailing_run(buf) - 1] == 0,
    decreases buf.len(),
{
    if buf.len() > 0 && buf.last() != 0 {
        let front = buf.drop_last();
        lemma_trailing_run(front);
        assert forall|j: int| buf.len() - trailing_run(buf) <= j < buf.len() implies buf[j]
            != 0 by {
            if j < front.len() {
                assert(buf[j] == front[j]);
            }
        }
        if trailing_run(buf) < buf.len() {
            assert(buf[buf.len() - trailing_run(buf) - 1] == front[front.len() - trailing_run(
                front,
            ) - 1]);
        }
    }
}

/// No two neighbouring units of `seen` are null, except perhaps the last two.
pub open spec fn scannable(seen: Seq<u16>) -> bool {
    forall|j: int| 0 <= j && j + 2 < seen.len() ==> !(seen[j] == 0 && #[trigger] seen[j + 1] == 0)
}

/// The count of null units directly before a run that starts at `from`, as a
/// scan from the start of the buffer meets it.
spec fn nulls_before(from: int) -> int {
    if from == 0 {
        0
    } else {
        1
    }
}

/// Where `a` holds a null unit at or after `from`, a buffer that starts with
/// `a` has its first null unit in the same place.
proof fn lemma_first_nul_prefix(a: Seq<u16>, b: Seq<u16>, from: int)
    requires
        a.is_prefix_of(b),
        0 <= from <= a.len(),
    ensures
        first_nul(a, from) < a.len() ==> first_nul(b, from) == first_nul(a, from),
        first_nul(a, from) >= a.len() ==> first_nul(b, from) == first_nul(b, a.len() as int),
    decreases a.len() - from,
{
    if from < a.len() {
        assert(a[from] == b[from]);
        if a[from] != 0 {
            lemma_first_nul_prefix(a, b, from + 1);
        }
    }
}

/// Scanning a buffer that starts with `a` finds the names of `a` first. If
/// `a` ends with two null units the scan ends there; otherwise it goes on
/// from the start of the trailing run of `a`.
proof fn lemma_names_prefix(a: Seq<u16>, b: Seq<u16>, from: int)
    requires
        a.is_prefix_of(b),
        scannable(a),
        0 <= from <= a.len() - trailing_run(a),
        from == 0 || a[from - 1] == 0,
        ends_with_double_nul(a) ==> from < a.len(),
    ensures
        names_from(b, from, nulls_before(from)) == names_from(a, from, nulls_before(from)) + (
        if ends_with_double_nul(a) {
            Seq::empty()
        } else {
            names_from(
                b,
                a.len() - trailing_run(a),
                nulls_before(a.len() - trailing_run(a)),
            )
        }),
    decreases a.len() - from,
{
    let len = a.len() as int;
    let start = len - trailing_run(a);
    lemma_trailing_run(a);
    if from == len {
        assert(names_from(a, from, nulls_before(from)) == Seq::<Seq<u16>>::empty());
    } else {
        assert(a[from] == b[from]);
        if a[from] == 0 {
            if from == 0 {
                assert(start >= 1);
                if ends_with_double_nul(a) {
                    assert(len >= 2);
                }
                lemma_names_prefix(a, b, 1);
            } else {
                assert(a[from - 1] == 0 && a[from - 1 + 1] == 0);
                assert(from + 1 == len);
            }
        } else if from == start {
            lemma_first_nul(a, from);
            assert(first_nul(a, from) == len);
            assert(a.last() != 0);
            assert(names_from(a, from, nulls_before(from)) == Seq::<Seq<u16>>::empty());
        } else {
            let end = first_nul(a, from);
            lemma_first_nul(a, from);
            assert(a[start - 1] == 0);
            assert(end <= start - 1);
            lemma_first_nul_prefix(a, b, from);
            assert(b.subrange(from, end + 1) == a.subrange(from, end + 1));
            if ends_with_double_nul(a) {
                assert(a[len - 2] == 0);
                assert(end <= len - 2);
            }
            lemma_names_prefix(a, b, end + 1);
            let rest = if ends_with_double_nul(a) {
                Seq::<Seq<u16>>::empty()
            } else {
                names_from(b, start, nulls_before(start))
            };
            assert(seq![a.subrange(from, end + 1)] + (names_from(a, end + 1, 1) + rest) == (
            seq![a.subrange(from, end + 1)] + names_from(a, end + 1, 1)) + rest);
        }
    }
}

/// Units that are not null are passed over in the search for a null unit.
proof fn lemma_first_nul_skip(buf: Seq<u16>, from: int, to: int)
    requires
        0 <= from <= to <= buf.len(),
        forall|j: int| from <= j < to ==> buf[j] != 0,
    ensures
        first_nul(buf, from) == first_nul(buf, to),
    decreases to - from,
{
    if from < to {
        lemma_first_nul_skip(buf, from + 1, to);
    }
}

/// One more unit adds to the names of a buffer the run that it closes, and
/// nothing else.
pub proof fn lemma_names_push(seen: Seq<u16>, unit: u16)
    requires
        scannable(seen),
        !ends_with_double_nul(seen),
        seen.len() < usize::MAX,
    ensures
        env_names(seen.push(unit)) == match run_closed_by(seen, unit) {
            Some((start, len)) => env_names(seen).push(
                seen.push(unit).subrange(start as int, start + len),
            ),
            None => env_names(seen),
        },
        scannable(seen.push(unit)),
{
    let next = seen.push(unit);
    let len = seen.len() as int;
    let start = len - trailing_run(seen);
    lemma_trailing_run(seen);
    assert(scannable(next)) by {
        assert forall|j: int| 0 <= j && j + 2 < next.len() implies !(next[j] == 0
            && #[trigger] next[j + 1] == 0) by {
            assert(next[j] == seen[j] && next[j + 1] == seen[j + 1]);
            if j + 2 == len {
                assert(!(seen[len - 2] == 0 && seen[len - 1] == 0));
            }
        }
    }
    lemma_names_prefix(seen, next, 0);
    lemma_first_nul_skip(next, start, len);
    assert(first_nul(next, len) == if unit == 0 {
        len
    } else {
        len + 1
    }) by {
        reveal_with_fuel(first_nul, 2);
    }
    if trailing_run(seen) > 0 {
        assert(next[start] == seen[start]);
        if unit == 0 {
            assert(names_from(next, len + 1, 1) == Seq::<Seq<u16>>::empty());
            assert(names_from(next, start, nulls_before(start)) == seq![
                next.subrange(start, len + 1),
            ]);
            assert(env_names(seen) + seq![next.subrange(start, len + 1)] == env_names(seen).push(
                next.subrange(start, len + 1),
            ));
        } else {
            assert(names_from(next, start, nulls_before(start)) == Seq::<Seq<u16>>::empty());
            assert(env_names(seen) + Seq::<Seq<u16>>::empty() == env_names(seen));
        }
    } else {
        assert(names_from(next, len + 1, 1) == Seq::<Seq<u16>>::empty());
        assert(names_from(next, start, nulls_before(start)) == Seq::<Seq<u16>>::empty());
        assert(env_names(seen) + Seq::<Seq<u16>>::empty() == env_names(seen));
    }
}

/// Nothing that follows two neighbouring null units is scanned.
pub proof fn lemma_names_end(seen: Seq<u16>, buf: Seq<u16>)
    requires
        seen.is_prefix_of(buf),
        scannable(seen),
        ends_with_double_nul(seen),
    ensures
        env_names(buf) == env_names(seen),
{
    lemma_trailing_run(seen);
    lemma_names_prefix(seen, buf, 0);
    assert(env_names(seen) + Seq::<Seq<u16>>::empty() == env_names(seen));
}

/// The search for a null unit does not depend on what stands before its start.
proof fn lemma_first_nul_skipped(buf: Seq<u16>, cut: int, from: int)
    requires
        0 <= cut,
        0 <= from,
        cut + from <= buf.len(),
    ensures
        first_nul(buf.skip(cut), from) == first_nul(buf, cut + from) - cut,
    decreases buf.len() - cut - from,
{
    if cut + from < buf.len() {
        assert(buf.skip(cut)[from] == buf[cut + from]);
        if buf[cut + from] != 0 {
            lemma_first_nul_skipped(buf, cut, from + 1);
        }
    }
}

/// A scan from `from` does not depend on what stands before `from`, but for
/// the count of null units directly before it.
proof fn lemma_names_skipped(buf: Seq<u16>, from: int, nulls: int)
    requires
        0 <= from <= buf.len(),
    ensures
        names_from(buf, from, nulls) == names_from(buf.skip(from), 0, nulls),
    decreases buf.len() - from,
{
    let cut = buf.skip(from);
    if from < buf.len() {
        assert(cut[0] == buf[from]);
        if buf[from] == 0 {
            if nulls < 1 {
                lemma_names_skipped(buf, from + 1, 1);
                lemma_names_skipped(cut, 1, 1);
                assert(cut.skip(1) == buf.skip(from + 1));
            }
        } else {
            let end = first_nul(buf, from);
            lemma_first_nul(buf, from);
            lemma_first_nul_skipped(buf, from, 0);
            if end < buf.len() {
                assert(cut.subrange(0, end - from + 1) == buf.subrange(from, end + 1));
                lemma_names_skipped(buf, end + 1, 1);
                lemma_names_skipped(cut, end - from + 1, 1);
                assert(cut.skip(end - from + 1) == buf.skip(end + 1));
            }
        }
    }
}

/// A variable name: at least one unit, none of them null.
pub open spec fn is_name(name: Seq<u16>) -> bool {
    name.len() > 0 && forall|j: int| 0 <= j < name.len() ==> name[j] != 0
}

/// The runs of `names` one after the other, each closed by a null unit.
pub open spec fn encode_runs(names: Seq<Seq<u16>>) -> Seq<u16>
    decreases names.len(),
{
    if names.len() == 0 {
        Seq::empty()
    } else {
        names[0] + seq![0u16] + encode_runs(names.drop_first())
    }
}

/// Each name with its closing null unit.
pub open spec fn terminated(names: Seq<Seq<u16>>) -> Seq<Seq<u16>> {
    names.map_values(|name: Seq<u16>| name.push(0u16))
}

proof fn lemma_scan_of_encoding_from(names: Seq<Seq<u16>>, tail: Seq<u16>, nulls: int)
    requires
        forall|k: int| 0 <= k < names.len() ==> is_name(#[trigger] names[k]),
        names.len() > 0 || nulls >= 1 || tail.len() == 0 || tail[0] == 0,
    ensures
        names_from(encode_runs(names) + seq![0u16] + tail, 0, nulls) == terminated(names),
    decreases names.len(),
{
    let buf = encode_runs(names) + seq![0u16] + tail;
    if names.len() == 0 {
        assert(buf[0] == 0);
        if nulls < 1 && tail.len() > 0 {
            assert(buf[1] == tail[0]);
        }
        assert(names_from(buf, 0, nulls) == Seq::<Seq<u16>>::empty()) by {
            reveal_with_fuel(names_from, 2);
        }
        assert(terminated(names) == Seq::<Seq<u16>>::empty());
    } else {
        let first = names[0];
        let others = names.drop_first();
        let rest = encode_runs(others) + seq![0u16] + tail;
        let n = first.len() as int;
        assert(is_name(first));
        assert(buf == first + seq![0u16] + rest);
        assert forall|j: int| 0 <= j < n implies buf[j] != 0 by {
            assert(buf[j] == first[j]);
        }
        assert(buf[n] == 0);
        lemma_first_nul_skip(buf, 0, n);
        assert(first_nul(buf, 0) == n);
        assert(buf.subrange(0, n + 1) == first.push(0u16));
        lemma_names_skipped(buf, n + 1, 1);
        assert(buf.skip(n + 1) == rest);
        assert forall|k: int| 0 <= k < others.len() implies is_name(#[trigger] others[k]) by {
            assert(others[k] == names[k + 1]);
        }
        lemma_scan_of_encoding_from(others, tail, 1);
        assert(seq![first.push(0u16)] + terminated(others) == terminated(names)) by {
            assert forall|k: int| 0 <= k < names.len() implies (seq![first.push(0u16)]
                + terminated(others))[k] == terminated(names)[k] by {
                if k > 0 {
                    assert(others[k - 1] == names[k]);
                }
            }
        }
    }
}

/// A buffer built from names, each closed by a null unit, and one more null
/// unit, scans to exactly those names, in order, whatever follows. (With no
/// name at all, what follows the null unit is empty or begins with another.)
pub proof fn lemma_scan_of_encoding(names: Seq<Seq<u16>>, tail: Seq<u16>)
    requires
        forall|k: int| 0 <= k < names.len() ==> is_name(#[trigger] names[k]),
        names.len() > 0 || tail.len() == 0 || tail[0] == 0,
    ensures
        env_names(encode_runs(names) + seq![0u16] + tail) == terminated(names),
{
    lemma_scan_of_encoding_from(names, tail, 0);
}

/// The scanning state machine: the start and the length of the run under
/// way, and the count of null units seen in a row.
pub struct EnvScanner {
    cur_start: usize,
    cur_len: usize,
    null_count: usize,
    pos: usize,
    seen: Ghost<Seq<u16>>,
}

impl EnvScanner {
    #[verifier::type_invariant]
    spec fn inv(self) -> bool {
        &&& self.pos == self.seen@.len()
        &&& self.pos == 0 ==> self.cur_start == 0
        &&& self.cur_len == trailing_run(self.seen@)
        &&& self.cur_len > 0 ==> self.cur_start + self.cur_len == self.pos
        &&& scannable(self.seen@)
        &&& self.null_count == if ends_with_double_nul(self.seen@) {
            2int
        } else if self.seen@.len() >= 1 && self.seen@.last() == 0 {
            1int
        } else {
            0int
        }
    }

    /// The units fed so far.
    pub closed spec fn seen(&self) -> Seq<u16> {
        self.seen@
    }

    pub open spec fn spec_is_done(&self) -> bool {
        ends_with_double_nul(self.seen())
    }

    /// A scanner that has seen nothing.
    pub fn new() -> (s: EnvScanner)
        ensures
            s.seen() == Seq::<u16>::empty(),
    {
        EnvScanner { cur_start: 0, cur_len: 0, null_count: 0, pos: 0, seen: Ghost(Seq::empty()) }
    }

    /// Whether the scan is over: the last two units fed were null.
    #[verifier::when_used_as_spec(spec_is_done)]
    pub fn is_done(&self) -> (b: bool)
        ensures
            b == self.spec_is_done(),
            scannable(self.seen()),
    {
        proof {
            use_type_invariant(self);
        }
        self.null_count > 1
    }

    /// The number of units fed so far.
    pub fn consumed(&self) -> (n: usize)
        ensures
            n == self.seen().len(),
    {
        proof {
            use_type_invariant(self);
        }
        self.pos
    }

    /// Feeds the next unit of the buffer. Returns the start and the length of
    /// the run that the unit closes, if it closes one.
    pub fn feed(&mut self, unit: u16) -> (run: Option<(usize, usize)>)
        requires
            !old(self).is_done(),
            old(self).seen().len() < usize::MAX,
        ensures
            final(self).seen() == old(self).seen().push(unit),
            run == run_closed_by(old(self).seen(), unit),
    {
        let ghost seen = self.seen@;
        let ghost next = seen.push(unit);
        proof {
            use_type_invariant(&*self);
            lemma_names_push(seen, unit);
            lemma_trailing_run(seen);
            assert(next.drop_last() =~= seen);
        }
        if unit == 0 {
            let run = if self.cur_len > 0 {
                Some((self.cur_start, self.cur_len + 1))
            } else {
                None
            };
            *self = EnvScanner {
                cur_start: self.cur_start,
                cur_len: 0,
                null_count: self.null_count + 1,
                pos: self.pos + 1,
                seen: Ghost(next),
            };
            run
        } else {
            let cur_start = if self.null_count > 0 {
                self.pos
            } else {
                self.cur_start
            };
            *self = EnvScanner {
                cur_start,
                cur_len: self.cur_len + 1,
                null_count: 0,
                pos: self.pos + 1,
                seen: Ghost(next),
            };
            None
        }
    }
}

/// The views of a list of strings.
pub open spec fn views(names: Seq<CStr16<'_>>) -> Seq<Seq<u16>> {
    names.map_values(|name: CStr16| name@)
}

/// Scans the names out of `buf` without copying: each name borrows its run
/// of `buf`, terminator included.
pub fn scan_names<'a>(buf: &'a [u16]) -> (names: Vec<CStr16<'a>>)
    ensures
        views(names@) == env_names(buf@),
{
    let mut scanner = EnvScanner::new();
    let mut names: Vec<CStr16<'a>> = Vec::new();
    let mut i: usize = 0;
    assert(views(names@) == env_names(scanner.seen())) by {
        assert(env_names(Seq::<u16>::empty()) == Seq::<Seq<u16>>::empty());
    }
    while i < buf.len() && !scanner.is_done()
        invariant
            i <= buf.len(),
            scanner.seen() == buf@.subrange(0, i as int),
            scannable(scanner.seen()),
            views(names@) == env_names(scanner.seen()),
        decreases buf.len() - i,
    {
        let ghost seen = scanner.seen();
        proof {
            lemma_names_push(seen, buf@[i as int]);
            lemma_trailing_run(seen);
            assert(seen.push(buf@[i as int]) == buf@.subrange(0, i + 1));
        }
        match scanner.feed(buf[i]) {
            Some((start, len)) => {
                let run = slice_subrange(buf, start, start + len);
                proof {
                    assert(run@ == buf@.subrange(0, i + 1).subrange(start as int, start + len));
                    assert forall|j: int| 0 <= j < run@.len() - 1 implies run@[j] != 0 by {
                        assert(run@[j] == seen[start + j]);
                    }
                }
                let name = CStr16::from_u16_with_nul_unchecked(run);
                proof {
                    assert(views(names@.push(name)) == views(names@).push(name@));
                }
                names.push(name);
            },
            None => {},
        }
        i += 1;
    }
    proof {
        if scanner.is_done() {
            lemma_names_end(scanner.seen(), buf@);
        } else {
            assert(buf@.subrange(0, i as int) == buf@);
        }
    }
    names
}

/// What a lookup in the environment gives.
#[derive(Debug)]
pub enum EnvOutput<'a> {
    /// The value of the variable that was asked for.
    Val(CStr16<'a>),
    /// The names of all variables, in the order of the firmware's buffer.
    Vec(Vec<CStr16<'a>>),
}

impl<'a> EnvOutput<'a> {
    /// The value, if this is the answer to a lookup by name.
    pub fn val(self) -> (r: Option<CStr16<'a>>)
        ensures
            r == match self {
                EnvOutput::Val(v) => Some(v),
                EnvOutput::Vec(_) => None,
            },
    {
        match self {
            EnvOutput::Val(v) => Some(v),
            _ => None,
        }
    }

    /// The list of names, if this is the answer to a lookup without a name.
    pub fn vec(self) -> (r: Option<Vec<CStr16<'a>>>)
        ensures
            r == match self {
                EnvOutput::Vec(v) => Some(v),
                EnvOutput::Val(_) => None,
            },
    {
        match self {
            EnvOutput::Vec(v) => Some(v),
            _ => None,
        }
    }
}

} // verus!
