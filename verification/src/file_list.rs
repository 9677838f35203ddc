//! Firmware-owned file lists: records linked in both directions, read
//! through a copy of what memory holds at their addresses.

use crate::cstr16::CStr16;
use crate::status::Status;
use std::collections::HashMap;
use vstd::prelude::*;

verus! {

broadcast use vstd::std_specs::hash::group_hash_axioms;

/// The links that every record of a list begins with: the addresses of the
/// next and the previous record, zero where there is none.
#[derive(Clone, Copy, Debug, PartialEq, Eq, Structural)]
pub struct ListEntry {
    pub flink: usize,
    pub blink: usize,
}

/// An open file as the firmware names it. The library hands it back and
/// never looks behind it.
#[derive(Clone, Copy, Debug, PartialEq, Eq, Structural)]
pub struct ShellFileHandle(pub usize);

/// One record of a file list.
#[derive(Clone, Copy, Debug, PartialEq, Eq)]
pub struct ShellFileInfo<'a> {
    /// The links to the neighbouring records.
    pub link: ListEntry,
    /// How the search that found the file ended for it.
    pub status: Status,
    /// The full path of the file.
    pub full_name: CStr16<'a>,
    /// The last component of the path.
    pub file_name: CStr16<'a>,
    /// The handle of the file.
    pub shell_file_handle: ShellFileHandle,
    /// The address of the extended file information.
    pub info: usize,
}

impl<'a> ShellFileInfo<'a> {
    /// The last component of the file's path.
    pub fn file_name(&self) -> (name: CStr16<'a>)
        ensures
            name == self.file_name,
    {
        self.file_name
    }
}

/// `chain` holds the addresses of linked records of `memory`, the first at
/// `head`: none is zero, each is the forward link of the one before it and
/// the backward link of the one after it.
pub open spec fn is_linked(
    memory: Map<usize, ShellFileInfo<'_>>,
    head: usize,
    chain: Seq<usize>,
) -> bool {
    &&& chain.len() >= 1
    &&& chain[0] == head
    &&& forall|i: int|
        0 <= i < chain.len() ==> #[trigger] chain[i] != 0 && memory.contains_key(chain[i])
    &&& forall|i: int|
        0 <= i < chain.len() - 1 ==> memory[#[trigger] chain[i]].link.flink == chain[i + 1]
    &&& forall|i: int|
        0 < i < chain.len() ==> memory[#[trigger] chain[i]].link.blink == chain[i - 1]
}

/// `chain` holds the addresses of all records of the list at `head`, in
/// order: they are linked, and the last has no forward link.
pub open spec fn is_chain(
    memory: Map<usize, ShellFileInfo<'_>>,
    head: usize,
    chain: Seq<usize>,
) -> bool {
    is_linked(memory, head, chain) && memory[chain.last()].link.flink == 0
}

/// `memory` holds a list at `head`.
pub open spec fn is_list(memory: Map<usize, ShellFileInfo<'_>>, head: usize) -> bool {
    exists|chain: Seq<usize>| is_chain(memory, head, chain)
}

/// The addresses of the records of the list at `head`, the head first.
pub open spec fn chain_of(memory: Map<usize, ShellFileInfo<'_>>, head: usize) -> Seq<usize> {
    choose|chain: Seq<usize>| is_chain(memory, head, chain)
}

/// Linked records from one head are the first records of the list there.
proof fn lemma_linked_is_prefix(
    memory: Map<usize, ShellFileInfo<'_>>,
    head: usize,
    linked: Seq<usize>,
    chain: Seq<usize>,
    i: int,
)
    requires
        is_linked(memory, head, linked),
        is_chain(memory, head, chain),
        0 <= i < linked.len(),
    ensures
        i < chain.len(),
        linked[i] == chain[i],
    decreases i,
{
    if i > 0 {
        lemma_linked_is_prefix(memory, head, linked, chain, i - 1);
        assert(memory[linked[i - 1]].link.flink == linked[i]);
        assert(linked[i] != 0);
        if i - 1 == chain.len() - 1 {
            assert(memory[chain.last()].link.flink == 0);
        }
        assert(memory[chain[i - 1]].link.flink == chain[i]);
    }
}

/// A head has at most one list.
pub proof fn lemma_chain_unique(
    memory: Map<usize, ShellFileInfo<'_>>,
    head: usize,
    a: Seq<usize>,
    b: Seq<usize>,
)
    requires
        is_chain(memory, head, a),
        is_chain(memory, head, b),
    ensures
        a == b,
{
    lemma_linked_is_prefix(memory, head, a, b, a.len() - 1);
    lemma_linked_is_prefix(memory, head, b, a, b.len() - 1);
    assert forall|i: int| 0 <= i < a.len() implies a[i] == b[i] by {
        lemma_linked_is_prefix(memory, head, a, b, i);
    }
    assert(a =~= b);
}

/// No record stands twice in a list.
pub proof fn lemma_chain_distinct(
    memory: Map<usize, ShellFileInfo<'_>>,
    head: usize,
    chain: Seq<usize>,
    i: int,
    j: int,
)
    requires
        is_chain(memory, head, chain),
        0 <= i < j < chain.len(),
    ensures
        chain[i] != chain[j],
    decreases chain.len() - j,
{
    if chain[i] == chain[j] {
        if j == chain.len() - 1 {
            assert(memory[chain[i]].link.flink == chain[i + 1]);
            assert(chain[i + 1] != 0);
        } else {
            assert(memory[chain[i]].link.flink == chain[i + 1]);
            assert(memory[chain[j]].link.flink == chain[j + 1]);
            lemma_chain_distinct(memory, head, chain, i + 1, j + 1);
        }
    }
}

/// A list has no more records than the memory that holds it.
proof fn lemma_chain_fits(
    memory: Map<usize, ShellFileInfo<'_>>,
    head: usize,
    chain: Seq<usize>,
)
    requires
        is_chain(memory, head, chain),
        memory.dom().finite(),
    ensures
        chain.len() <= memory.dom().len(),
{
    assert(chain.no_duplicates()) by {
        assert forall|i: int, j: int|
            0 <= i < chain.len() && 0 <= j < chain.len() && i != j implies chain[i]
            != chain[j] by {
            if i < j {
                lemma_chain_distinct(memory, head, chain, i, j);
            } else {
                lemma_chain_distinct(memory, head, chain, j, i);
            }
        }
    }
    chain.unique_seq_to_set();
    assert(chain.to_set().subset_of(memory.dom())) by {
        assert forall|a: usize| chain.to_set().contains(a) implies memory.dom().contains(a) by {
            let i = choose|i: int| 0 <= i < chain.len() && chain[i] == a;
            assert(memory.contains_key(chain[i]));
        }
    }
    vstd::set_lib::lemma_len_subset(chain.to_set(), memory.dom());
}

/// What memory holds at the addresses of a list's records.
#[derive(Debug)]
pub struct ListMemory<'a> {
    records: HashMap<usize, ShellFileInfo<'a>>,
}

impl<'a> View for ListMemory<'a> {
    type V = Map<usize, ShellFileInfo<'a>>;

    closed spec fn view(&self) -> Map<usize, ShellFileInfo<'a>> {
        self.records@
    }
}

impl<'a> ListMemory<'a> {
    /// A memory that holds no record.
    pub fn new() -> (memory: ListMemory<'a>)
        ensures
            memory@ == Map::<usize, ShellFileInfo<'a>>::empty(),
    {
        ListMemory { records: HashMap::new() }
    }

    /// Records what stands at `address`.
    pub fn insert(&mut self, address: usize, record: ShellFileInfo<'a>)
        ensures
            final(self)@ == old(self)@.insert(address, record),
    {
        self.records.insert(address, record);
    }

    /// The record at `address`, if the memory holds one.
    pub fn get(&self, address: usize) -> (record: Option<&ShellFileInfo<'a>>)
        ensures
            record == if self@.contains_key(address) {
                Some(&self@[address])
            } else {
                None
            },
    {
        self.records.get(&address)
    }

    /// Whether the memory holds a record at `address`.
    pub fn contains(&self, address: usize) -> (b: bool)
        ensures
            b == self@.contains_key(address),
    {
        self.records.contains_key(&address)
    }

    /// Whether a list stands at `head`: following the forward links from
    /// there ends at a record without one, over records that the memory
    /// holds, each with the record before it as its backward link.
    pub fn holds_list(&self, head: usize) -> (b: bool)
        ensures
            b == is_list(self@, head),
    {
        if head == 0 || !self.contains(head) {
            assert(!is_list(self@, head)) by {
                if is_list(self@, head) {
                    let chain = chain_of(self@, head);
                    assert(chain[0] != 0 && self@.contains_key(chain[0]));
                }
            }
            return false;
        }
        let count = self.len();
        let mut cursor = head;
        let mut steps: usize = 1;
        let ghost mut linked: Seq<usize> = seq![head];
        loop
            invariant
                is_linked(self@, head, linked),
                linked.last() == cursor,
                steps == linked.len(),
                count == self@.dom().len(),
                self@.dom().finite(),
            decreases usize::MAX - steps,
        {
            let next = match self.get(cursor) {
                Some(record) => record.link.flink,
                None => 0,
            };
            assert(next == self@[cursor].link.flink);
            if next == 0 {
                assert(is_chain(self@, head, linked));
                return true;
            }
            let back = match self.get(next) {
                Some(record) => Some(record.link.blink),
                None => None,
            };
            if back != Some(cursor) || steps >= count {
                assert(!is_list(self@, head)) by {
                    if is_list(self@, head) {
                        let chain = chain_of(self@, head);
                        let last = linked.len() - 1;
                        lemma_linked_is_prefix(self@, head, linked, chain, last);
                        assert(chain[last] == cursor);
                        assert(self@[chain[last]].link.flink == next);
                        assert(last < chain.len() - 1);
                        assert(self@[chain[last]].link.flink == chain[last + 1]);
                        assert(self@.contains_key(chain[last + 1]));
                        assert(self@[chain[last + 1]].link.blink == chain[last]);
                        lemma_chain_fits(self@, head, chain);
                    }
                }
                return false;
            }
            proof {
                let longer = linked.push(next);
                assert(is_linked(self@, head, longer)) by {
                    assert forall|i: int| 0 <= i < longer.len() implies #[trigger] longer[i] != 0
                        && self@.contains_key(longer[i]) by {
                        if i < linked.len() {
                            assert(longer[i] == linked[i]);
                        }
                    }
                    assert forall|i: int| 0 <= i < longer.len() - 1 implies self@[
                    #[trigger] longer[i]].link.flink == longer[i + 1] by {
                        assert(longer[i] == linked[i]);
                        if i + 1 < linked.len() {
                            assert(longer[i + 1] == linked[i + 1]);
                        }
                    }
                    assert forall|i: int| 0 < i < longer.len() implies self@[
                    #[trigger] longer[i]].link.blink == longer[i - 1] by {
                        assert(longer[i - 1] == linked[i - 1]);
                        if i < linked.len() {
                            assert(longer[i] == linked[i]);
                        }
                    }
                }
                linked = longer;
            }
            cursor = next;
            steps = steps + 1;
        }
    }

    /// The number of records.
    pub fn len(&self) -> (n: usize)
        ensures
            n == self@.len(),
            self@.dom().finite(),
    {
        self.records.len()
    }
}

/// The records taken and the cursor of a loader after `record` was
/// supplied to it: with a cursor that is not zero and has no record yet,
/// the record is taken for the cursor, which moves on to the record's
/// forward link; otherwise nothing changes.
pub open spec fn supplied<'a>(
    memory: Map<usize, ShellFileInfo<'a>>,
    cursor: usize,
    record: ShellFileInfo<'a>,
) -> (Map<usize, ShellFileInfo<'a>>, usize) {
    if cursor != 0 && !memory.contains_key(cursor) {
        (memory.insert(cursor, record), record.link.flink)
    } else {
        (memory, cursor)
    }
}

/// The records taken and the cursor of a loader that started at `head`
/// and was supplied `count` times with what `source` holds at its cursor.
pub open spec fn loaded<'a>(source: Map<usize, ShellFileInfo<'a>>, head: usize, count: nat) -> (
    Map<usize, ShellFileInfo<'a>>,
    usize,
)
    decreases count,
{
    if count == 0 {
        (Map::empty(), head)
    } else {
        let before = loaded(source, head, (count - 1) as nat);
        supplied(before.0, before.1, source[before.1])
    }
}

/// `address` is one of the first `count` addresses of `chain`.
pub open spec fn among_first(chain: Seq<usize>, count: nat, address: usize) -> bool
    decreases count,
{
    count > 0 && (chain[count - 1] == address || among_first(chain, (count - 1) as nat, address))
}

proof fn lemma_not_among_first(
    memory: Map<usize, ShellFileInfo<'_>>,
    head: usize,
    chain: Seq<usize>,
    count: nat,
    at: int,
)
    requires
        is_chain(memory, head, chain),
        count <= at < chain.len(),
    ensures
        !among_first(chain, count, chain[at]),
    decreases count,
{
    if count > 0 {
        lemma_chain_distinct(memory, head, chain, count - 1, at);
        lemma_not_among_first(memory, head, chain, (count - 1) as nat, at);
    }
}

proof fn lemma_loaded_prefix(
    source: Map<usize, ShellFileInfo<'_>>,
    head: usize,
    chain: Seq<usize>,
    count: nat,
)
    requires
        is_chain(source, head, chain),
        count <= chain.len(),
    ensures
        loaded(source, head, count).1 == if count < chain.len() {
            chain[count as int]
        } else {
            0
        },
        forall|a: usize| #[trigger]
            loaded(source, head, count).0.contains_key(a) ==> among_first(chain, count, a),
        forall|i: int|
            0 <= i < count ==> loaded(source, head, count).0.contains_key(#[trigger] chain[i])
                && loaded(source, head, count).0[chain[i]] == source[chain[i]],
    decreases count,
{
    if count > 0 {
        let before = loaded(source, head, (count - 1) as nat);
        let after = loaded(source, head, count);
        let at = count - 1;
        lemma_loaded_prefix(source, head, chain, (count - 1) as nat);
        assert(before.1 == chain[at]);
        assert(chain[at] != 0);
        lemma_not_among_first(source, head, chain, at as nat, at);
        assert(!before.0.contains_key(chain[at]));
        assert(after == (
            before.0.insert(chain[at], source[chain[at]]),
            source[chain[at]].link.flink,
        ));
        if count < chain.len() {
            assert(source[chain[at]].link.flink == chain[at + 1]);
        } else {
            assert(chain[at] == chain.last());
        }
        assert forall|a: usize| #[trigger] after.0.contains_key(a) implies among_first(
            chain,
            count,
            a,
        ) by {
            if a != chain[at] {
                assert(before.0.contains_key(a));
            }
        }
        assert forall|i: int| 0 <= i < count implies after.0.contains_key(#[trigger] chain[i])
            && after.0[chain[i]] == source[chain[i]] by {
            if i < at {
                lemma_chain_distinct(source, head, chain, i, at);
                assert(before.0.contains_key(chain[i]));
            }
        }
    }
}

/// A loader that is supplied from a memory with a list at `head` has read
/// that list, and wants nothing more, once it has been supplied as many
/// times as the list has records: what it has taken holds the same list,
/// with the same records.
pub proof fn lemma_loader_reads_the_list(
    source: Map<usize, ShellFileInfo<'_>>,
    head: usize,
    chain: Seq<usize>,
    count: nat,
)
    requires
        is_chain(source, head, chain),
        count >= chain.len(),
    ensures
        loaded(source, head, count).1 == 0,
        is_chain(loaded(source, head, count).0, head, chain),
        forall|i: int|
            0 <= i < chain.len() ==> loaded(source, head, count).0[#[trigger] chain[i]]
                == source[chain[i]],
    decreases count,
{
    if count > chain.len() {
        lemma_loader_reads_the_list(source, head, chain, (count - 1) as nat);
    } else {
        lemma_loaded_prefix(source, head, chain, count);
        let taken = loaded(source, head, count).0;
        assert forall|i: int| 0 <= i < chain.len() implies #[trigger] chain[i] != 0
            && taken.contains_key(chain[i]) by {
            assert(source.contains_key(chain[i]));
        }
        assert forall|i: int| 0 <= i < chain.len() - 1 implies taken[
        #[trigger] chain[i]].link.flink == chain[i + 1] by {
            assert(source[chain[i]].link.flink == chain[i + 1]);
        }
        assert forall|i: int| 0 < i < chain.len() implies taken[
        #[trigger] chain[i]].link.blink == chain[i - 1] by {
            assert(source[chain[i]].link.blink == chain[i - 1]);
        }
        assert(taken[chain.last()] == source[chain.last()]);
    }
}

/// Reads a list out of firmware memory, one record at a time: it says
/// which address it wants next, and takes the record that stands there.
#[derive(Debug)]
pub struct ListLoader<'a> {
    memory: ListMemory<'a>,
    cursor: usize,
}

impl<'a> ListLoader<'a> {
    /// The records taken so far.
    pub closed spec fn memory(&self) -> Map<usize, ShellFileInfo<'a>> {
        self.memory@
    }

    /// The address that the forward links have led to.
    pub closed spec fn cursor(&self) -> usize {
        self.cursor
    }

    /// The address whose record is wanted next: the cursor, unless it is
    /// zero or its record has been taken already.
    pub open spec fn spec_wanted(&self) -> Option<usize> {
        if self.cursor() != 0 && !self.memory().contains_key(self.cursor()) {
            Some(self.cursor())
        } else {
            None
        }
    }

    /// A loader that wants the record at `head`.
    pub fn new(head: usize) -> (loader: Self)
        ensures
            loader.memory() == Map::<usize, ShellFileInfo<'a>>::empty(),
            loader.cursor() == head,
    {
        ListLoader { memory: ListMemory::new(), cursor: head }
    }

    /// The address whose record is wanted next; `None` when the forward
    /// links have ended, or have led back into what was read.
    #[verifier::when_used_as_spec(spec_wanted)]
    pub fn wanted(&self) -> (address: Option<usize>)
        ensures
            address == self.spec_wanted(),
    {
        if self.cursor != 0 && !self.memory.contains(self.cursor) {
            Some(self.cursor)
        } else {
            None
        }
    }

    /// Takes `record` as what stands at the wanted address, and moves on
    /// to its forward link. Without a wanted address nothing changes.
    pub fn supply(&mut self, record: ShellFileInfo<'a>)
        ensures
            (final(self).memory(), final(self).cursor()) == supplied(
                old(self).memory(),
                old(self).cursor(),
                record,
            ),
    {
        if self.cursor != 0 && !self.memory.contains(self.cursor) {
            self.memory.insert(self.cursor, record);
            self.cursor = record.link.flink;
        }
    }

    /// The records that were taken.
    pub fn finish(self) -> (memory: ListMemory<'a>)
        ensures
            memory@ == self.memory(),
    {
        self.memory
    }
}

/// The record that a forward step from `cursor` moves to and yields: the
/// one that the forward link of the record at `cursor` names, if both are
/// held and the link is not zero.
pub open spec fn forward_step(memory: Map<usize, ShellFileInfo<'_>>, cursor: usize) -> Option<
    usize,
> {
    if memory.contains_key(cursor) && memory[cursor].link.flink != 0 && memory.contains_key(
        memory[cursor].link.flink,
    ) {
        Some(memory[cursor].link.flink)
    } else {
        None
    }
}

/// Whether a backward step yields the record at `back`: it does unless
/// `back` has met the forward cursor, or names no record.
pub open spec fn backward_step(
    memory: Map<usize, ShellFileInfo<'_>>,
    cursor: usize,
    back: usize,
) -> bool {
    back != cursor && memory.contains_key(back)
}

/// The addresses of the records that forward steps from `cursor` yield,
/// in the order in which they come, until a step yields nothing or `steps`
/// of them are made.
pub open spec fn forward_run(
    memory: Map<usize, ShellFileInfo<'_>>,
    cursor: usize,
    steps: nat,
) -> Seq<usize>
    decreases steps,
{
    if steps == 0 {
        Seq::empty()
    } else {
        match forward_step(memory, cursor) {
            Some(address) => seq![address] + forward_run(memory, address, (steps - 1) as nat),
            None => Seq::empty(),
        }
    }
}

/// The addresses of the records that backward steps from `back` yield, in
/// the order in which they come, while the forward cursor stays at
/// `cursor`, until a step yields nothing or `steps` of them are made.
pub open spec fn backward_run(
    memory: Map<usize, ShellFileInfo<'_>>,
    cursor: usize,
    back: usize,
    steps: nat,
) -> Seq<usize>
    decreases steps,
{
    if steps == 0 || !backward_step(memory, cursor, back) {
        Seq::empty()
    } else {
        seq![back] + backward_run(memory, cursor, memory[back].link.blink, (steps - 1) as nat)
    }
}

/// On a list, a forward step from a record moves to the record after it,
/// and from the last record to none. So forward steps from the head yield
/// the entries in list order and then stop.
pub proof fn lemma_forward_in_order(
    memory: Map<usize, ShellFileInfo<'_>>,
    head: usize,
    chain: Seq<usize>,
    i: int,
)
    requires
        is_chain(memory, head, chain),
        0 <= i < chain.len(),
    ensures
        forward_step(memory, chain[i]) == if i + 1 < chain.len() {
            Some(chain[i + 1])
        } else {
            None
        },
{
    assert(memory.contains_key(chain[i]));
    if i + 1 < chain.len() {
        assert(memory[chain[i]].link.flink == chain[i + 1]);
        assert(chain[i + 1] != 0 && memory.contains_key(chain[i + 1]));
    } else {
        assert(chain[i] == chain.last());
    }
}

/// On a list, with the forward cursor still at the head, a backward step
/// from any record but the head yields it and moves to the record before
/// it; at the head it yields nothing. So backward steps from the last
/// record yield the entries in reverse order and then stop.
pub proof fn lemma_backward_in_reverse(
    memory: Map<usize, ShellFileInfo<'_>>,
    head: usize,
    chain: Seq<usize>,
    i: int,
)
    requires
        is_chain(memory, head, chain),
        0 <= i < chain.len(),
    ensures
        backward_step(memory, head, chain[i]) == (i > 0),
        i > 0 ==> memory[chain[i]].link.blink == chain[i - 1],
{
    assert(memory.contains_key(chain[i]));
    if i > 0 {
        lemma_chain_distinct(memory, head, chain, 0, i);
    }
}

/// Forward steps from the record at place `i` of a list yield the records
/// after it, in list order, and no more than those.
pub proof fn lemma_forward_run(
    memory: Map<usize, ShellFileInfo<'_>>,
    head: usize,
    chain: Seq<usize>,
    i: int,
    steps: nat,
)
    requires
        is_chain(memory, head, chain),
        0 <= i < chain.len(),
    ensures
        forward_run(memory, chain[i], steps) == if steps < chain.len() - 1 - i {
            chain.subrange(i + 1, i + 1 + steps)
        } else {
            chain.skip(i + 1)
        },
    decreases steps,
{
    lemma_forward_in_order(memory, head, chain, i);
    if steps > 0 && i + 1 < chain.len() {
        lemma_forward_run(memory, head, chain, i + 1, (steps - 1) as nat);
        let rest = forward_run(memory, chain[i + 1], (steps - 1) as nat);
        if steps < chain.len() - 1 - i {
            assert(seq![chain[i + 1]] + rest =~= chain.subrange(i + 1, i + 1 + steps));
        } else {
            assert(seq![chain[i + 1]] + rest =~= chain.skip(i + 1));
        }
    } else {
        assert(forward_run(memory, chain[i], steps) =~= Seq::<usize>::empty());
    }
}

/// With the forward cursor at the head, backward steps from the record at
/// place `i` of a list yield that record and those before it, down to the
/// first entry, in reverse list order, and no more than those.
pub proof fn lemma_backward_run(
    memory: Map<usize, ShellFileInfo<'_>>,
    head: usize,
    chain: Seq<usize>,
    i: int,
    steps: nat,
)
    requires
        is_chain(memory, head, chain),
        0 <= i < chain.len(),
    ensures
        backward_run(memory, head, chain[i], steps) == if steps < i {
            chain.subrange(i + 1 - steps, i + 1).reverse()
        } else {
            chain.subrange(1, i + 1).reverse()
        },
    decreases steps,
{
    lemma_backward_in_reverse(memory, head, chain, i);
    if steps > 0 && i > 0 {
        lemma_backward_run(memory, head, chain, i - 1, (steps - 1) as nat);
        let rest = backward_run(memory, head, chain[i - 1], (steps - 1) as nat);
        if steps < i {
            assert(seq![chain[i]] + rest =~= chain.subrange(i + 1 - steps, i + 1).reverse());
        } else {
            assert(seq![chain[i]] + rest =~= chain.subrange(1, i + 1).reverse());
        }
    } else {
        assert(backward_run(memory, head, chain[i], steps) =~= Seq::<usize>::empty());
    }
}

/// A list with `k` entries gives exactly those `k`, in list order, to
/// forward steps from its head, and the same `k` in reverse order to
/// backward steps from its last record, however many steps are made
/// beyond `k`.
pub proof fn lemma_both_directions(
    memory: Map<usize, ShellFileInfo<'_>>,
    head: usize,
    chain: Seq<usize>,
    steps: nat,
)
    requires
        is_chain(memory, head, chain),
        steps >= chain.len() - 1,
    ensures
        forward_run(memory, head, steps) == chain.skip(1),
        backward_run(memory, head, chain.last(), steps) == chain.skip(1).reverse(),
{
    lemma_forward_run(memory, head, chain, 0, steps);
    lemma_backward_run(memory, head, chain, chain.len() - 1, steps);
    assert(chain.subrange(1, chain.len() as int) =~= chain.skip(1));
}

/// A cursor over a file list that steps from both ends.
#[derive(Debug)]
pub struct FileListIter<'l> {
    memory: &'l ListMemory<'l>,
    current_node: usize,
    current_node_back: usize,
}

impl<'l> FileListIter<'l> {
    /// The memory that the cursor reads.
    pub closed spec fn memory(&self) -> Map<usize, ShellFileInfo<'l>> {
        self.memory@
    }

    /// The address of the record that the last forward step yielded, or of
    /// the head before the first.
    pub closed spec fn cursor(&self) -> usize {
        self.current_node
    }

    /// The address of the record that the next backward step yields.
    pub closed spec fn cursor_back(&self) -> usize {
        self.current_node_back
    }

    fn new(start: usize, end: usize, memory: &'l ListMemory<'l>) -> (iter: Self)
        requires
            start != 0,
            end != 0,
        ensures
            iter.memory() == memory@,
            iter.cursor() == start,
            iter.cursor_back() == end,
    {
        FileListIter { memory, current_node: start, current_node_back: end }
    }

    /// Follows the forward link of the record under the cursor and yields
    /// the record there; `None` at a record without a forward link.
    pub fn next(&mut self) -> (item: Option<&'l ShellFileInfo<'l>>)
        ensures
            final(self).memory() == old(self).memory(),
            final(self).cursor_back() == old(self).cursor_back(),
            match forward_step(old(self).memory(), old(self).cursor()) {
                Some(address) => final(self).cursor() == address && item == Some(
                    &old(self).memory()[address],
                ),
                None => final(self).cursor() == old(self).cursor() && item is None,
            },
    {
        let flink = match self.memory.get(self.current_node) {
            Some(record) => record.link.flink,
            None => 0,
        };
        if flink == 0 {
            None
        } else {
            let item = self.memory.get(flink);
            if item.is_some() {
                self.current_node = flink;
            }
            item
        }
    }

    /// Yields the record under the backward cursor and follows its backward
    /// link; `None` once the backward cursor has met the forward cursor.
    pub fn next_back(&mut self) -> (item: Option<&'l ShellFileInfo<'l>>)
        ensures
            final(self).memory() == old(self).memory(),
            final(self).cursor() == old(self).cursor(),
            if backward_step(old(self).memory(), old(self).cursor(), old(self).cursor_back()) {
                &&& item == Some(&old(self).memory()[old(self).cursor_back()])
                &&& final(self).cursor_back() == old(self).memory()[old(
                    self,
                ).cursor_back()].link.blink
            } else {
                item is None && final(self).cursor_back() == old(self).cursor_back()
            },
    {
        if self.current_node == self.current_node_back {
            None
        } else {
            let item = self.memory.get(self.current_node_back);
            match item {
                Some(record) => {
                    self.current_node_back = record.link.blink;
                },
                None => {},
            }
            item
        }
    }
}

/// A file list that the firmware allocated: the address of its head, the
/// address of its last record once that is known, and what memory holds at
/// its records. The head anchors the list; its entries are the records
/// after the head.
#[derive(Debug)]
pub struct FileList<'a> {
    start: usize,
    end: usize,
    memory: ListMemory<'a>,
}

impl<'a> FileList<'a> {
    #[verifier::type_invariant]
    spec fn inv(self) -> bool {
        &&& is_list(self.memory@, self.start)
        &&& self.end != 0 ==> self.end == chain_of(self.memory@, self.start).last()
    }

    /// The address of the head, which is what the firmware gave out and
    /// what it takes back.
    pub closed spec fn head(&self) -> usize {
        self.start
    }

    /// What memory holds at the records.
    pub closed spec fn memory(&self) -> Map<usize, ShellFileInfo<'a>> {
        self.memory@
    }

    /// Whether the address of the last record has been found and kept.
    pub closed spec fn tail_resolved(&self) -> bool {
        self.end != 0
    }

    /// The addresses of the records, the head first.
    pub open spec fn chain(&self) -> Seq<usize> {
        chain_of(self.memory(), self.head())
    }

    /// The entries in list order: the records after the head.
    pub open spec fn entries(&self) -> Seq<ShellFileInfo<'a>> {
        Seq::new((self.chain().len() - 1) as nat, |i: int| self.memory()[self.chain()[i + 1]])
    }

    /// Takes over the list at `root`.
    pub fn new(root: usize, memory: ListMemory<'a>) -> (list: Self)
        requires
            is_list(memory@, root),
        ensures
            list.head() == root,
            list.memory() == memory@,
            !list.tail_resolved(),
    {
        FileList { start: root, end: 0, memory }
    }

    /// The record at the head.
    pub fn first(&self) -> (record: &ShellFileInfo<'a>)
        ensures
            is_chain(self.memory(), self.head(), self.chain()),
            *record == self.memory()[self.head()],
    {
        proof {
            use_type_invariant(self);
        }
        let ghost chain = self.chain();
        assert(self.memory@.contains_key(chain[0]));
        self.memory.get(self.start).unwrap()
    }

    /// The last record of the list. Its address is found on the first call,
    /// by following the forward links from the head, and kept.
    pub fn last(&mut self) -> (record: &ShellFileInfo<'a>)
        ensures
            final(self).head() == old(self).head(),
            final(self).memory() == old(self).memory(),
            final(self).tail_resolved(),
            is_chain(old(self).memory(), old(self).head(), old(self).chain()),
            *record == old(self).memory()[old(self).chain().last()],
    {
        proof {
            use_type_invariant(&*self);
        }
        let ghost chain = self.chain();
        if self.end == 0 {
            let mut last = self.start;
            let mut flink = self.memory.get(last).unwrap().link.flink;
            let ghost mut at: int = 0;
            while flink != 0
                invariant
                    is_chain(self.memory@, self.start, chain),
                    0 <= at < chain.len(),
                    last == chain[at],
                    flink == self.memory@[last].link.flink,
                decreases chain.len() - at,
            {
                proof {
                    if at == chain.len() - 1 {
                        assert(self.memory@[chain.last()].link.flink == 0);
                    }
                    assert(self.memory@[chain[at]].link.flink == chain[at + 1]);
                    assert(self.memory@.contains_key(chain[at + 1]));
                    at = at + 1;
                }
                last = flink;
                flink = self.memory.get(last).unwrap().link.flink;
            }
            proof {
                if at < chain.len() - 1 {
                    assert(self.memory@[chain[at]].link.flink == chain[at + 1]);
                    assert(chain[at + 1] != 0);
                }
                assert(chain[at] != 0);
            }
            self.end = last;
        }
        assert(self.memory@.contains_key(chain[chain.len() - 1]));
        self.memory.get(self.end).unwrap()
    }

    /// A cursor at the head of the list, with its backward end at the last
    /// record, whose address is found first if it is not known yet.
    pub fn iter(&mut self) -> (iter: FileListIter<'_>)
        ensures
            final(self).head() == old(self).head(),
            final(self).memory() == old(self).memory(),
            final(self).tail_resolved(),
            is_chain(old(self).memory(), old(self).head(), old(self).chain()),
            iter.memory() == old(self).memory(),
            iter.cursor() == old(self).head(),
            iter.cursor_back() == old(self).chain().last(),
    {
        if self.end == 0 {
            let _ = self.last();
        }
        proof {
            use_type_invariant(&*self);
            let chain = self.chain();
            assert(chain[0] != 0);
            assert(chain[chain.len() - 1] != 0);
        }
        FileListIter::new(self.start, self.end, &self.memory)
    }

    /// The entry at `index`, counted from zero in list order, found by
    /// that many forward steps and one more; `None` if the list has no
    /// such entry.
    #[verifier::loop_isolation(false)]
    pub fn get(&mut self, index: usize) -> (entry: Option<&ShellFileInfo<'_>>)
        ensures
            final(self).head() == old(self).head(),
            final(self).memory() == old(self).memory(),
            final(self).tail_resolved(),
            is_chain(old(self).memory(), old(self).head(), old(self).chain()),
            entry == if index < old(self).entries().len() {
                Some(&old(self).entries()[index as int])
            } else {
                None
            },
    {
        let ghost chain = self.chain();
        let ghost memory = self.memory();
        let ghost head = self.head();
        let mut iter = self.iter();
        let mut skipped: usize = 0;
        loop
            invariant
                is_chain(memory, head, chain),
                iter.memory() == memory,
                skipped <= index,
                skipped < chain.len(),
                iter.cursor() == chain[skipped as int],
            decreases index - skipped,
        {
            proof {
                lemma_forward_in_order(memory, head, chain, skipped as int);
            }
            let item = iter.next();
            if item.is_none() || skipped == index {
                return item;
            }
            skipped = skipped + 1;
        }
    }

    /// Gives the list up: the address of its head, for the firmware's call
    /// that frees the list. It is the address that the list was made with,
    /// whatever has been read of the list since.
    pub fn release(self) -> (root: usize)
        ensures
            root == self.head(),
    {
        self.start
    }
}

} // verus!
