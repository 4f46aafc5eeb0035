//! How a list of wishes becomes a list of requests.
//!
//! The user names parameters to read and parameters to write, in any
//! order. Reads that follow each other travel in one request; each write
//! travels alone; the order of the wishes is kept. When all parameters of a
//! catalog are read, they are split into requests of bounded response size.

use vstd::prelude::*;

verus! {

/// One wish: to read a parameter, or to write a value to one.
#[derive(Debug)]
pub enum Rw<Param, Value> {
    Read(Param),
    Write(Param, Value),
}

impl<Param, Value> Rw<Param, Value> {
    /// Whether the wish is to read.
    pub open spec fn spec_is_read(&self) -> bool {
        self is Read
    }

    /// Whether the wish is to read.
    #[verifier::when_used_as_spec(spec_is_read)]
    pub fn is_read(&self) -> (r: bool)
        ensures
            r == self.spec_is_read(),
    {
        match self {
            Rw::Read(_) => true,
            Rw::Write(_, _) => false,
        }
    }
}

/// One request: the wishes from place `from` up to, not including, place
/// `to` are read together, or the wish at place `at` is written.
#[derive(Copy, Clone, Debug, PartialEq, Eq, Structural)]
pub enum Step {
    Read { from: usize, to: usize },
    Write { at: usize },
}

impl Step {
    /// The place of the first wish of the step.
    pub open spec fn start(self) -> int {
        match self {
            Step::Read { from, to } => from as int,
            Step::Write { at } => at as int,
        }
    }

    /// The place behind the last wish of the step.
    pub open spec fn end(self) -> int {
        match self {
            Step::Read { from, to } => to as int,
            Step::Write { at } => at + 1,
        }
    }
}

/// The requests for a list of wishes, of which `reads` says which are
/// reads: every run of reads is one request, every write is one.
pub open spec fn plan(reads: Seq<bool>) -> Seq<Step>
    decreases reads.len(),
{
    if reads.len() == 0 {
        Seq::empty()
    } else {
        let before = plan(reads.drop_last());
        let i = (reads.len() - 1) as usize;
        if !reads.last() {
            before.push(Step::Write { at: i })
        } else if i > 0 && reads[i - 1] {
            before.drop_last().push(Step::Read { from: before.last().start() as usize, to: (i + 1) as usize })
        } else {
            before.push(Step::Read { from: i, to: (i + 1) as usize })
        }
    }
}

/// Which of the wishes are reads.
pub open spec fn reads_of<P, V>(wishes: Seq<Rw<P, V>>) -> Seq<bool> {
    Seq::new(wishes.len(), |i: int| wishes[i].spec_is_read())
}

/// What a plan looks like: it is empty for no wishes; else it ends where
/// the wishes end, and its last step is a read exactly if the last wish is.
pub proof fn lemma_plan_end(reads: Seq<bool>)
    requires
        reads.len() <= usize::MAX,
    ensures
        reads.len() == 0 ==> plan(reads).len() == 0,
        reads.len() > 0 ==> plan(reads).len() > 0 && plan(reads).last().end() == reads.len()
            && (plan(reads).last() is Read) == reads.last() && 0 <= plan(reads).last().start()
            < reads.len(),
    decreases reads.len(),
{
    if reads.len() > 0 {
        lemma_plan_end(reads.drop_last());
    }
}

/// The steps of a plan follow each other without a gap: the first starts
/// with the first wish, each begins where the one before it ends, none is
/// empty, and the last ends with the last wish.
pub proof fn law_plan_keeps_order(reads: Seq<bool>)
    requires
        reads.len() <= usize::MAX,
    ensures
        plan(reads).len() == 0 <==> reads.len() == 0,
        plan(reads).len() > 0 ==> plan(reads)[0].start() == 0 && plan(reads).last().end()
            == reads.len(),
        forall|k: int|
            0 < k < plan(reads).len() ==> (#[trigger] plan(reads)[k]).start() == plan(reads)[k
                - 1].end(),
        forall|k: int|
            0 <= k < plan(reads).len() ==> 0 <= (#[trigger] plan(reads)[k]).start() < plan(
                reads,
            )[k].end() <= reads.len(),
    decreases reads.len(),
{
    lemma_plan_end(reads);
    if reads.len() > 0 {
        let head = reads.drop_last();
        law_plan_keeps_order(head);
        lemma_plan_end(head);
        let before = plan(head);
        let now = plan(reads);
        let i = reads.len() - 1;
        if reads.last() && i > 0 && reads[i - 1] {
            assert(head.last() == reads[i - 1]);
            assert(now.len() == before.len());
            assert forall|k: int| 0 <= k < now.len() - 1 implies now[k] == before[k] by {}
        } else {
            assert(now.len() == before.len() + 1);
            assert forall|k: int| 0 <= k < before.len() implies now[k] == before[k] by {}
        }
    }
}

/// A read step holds reads only, and the wish of a write step is a write.
pub proof fn law_plan_keeps_kinds(reads: Seq<bool>, k: int, i: int)
    requires
        reads.len() <= usize::MAX,
        0 <= k < plan(reads).len(),
        plan(reads)[k].start() <= i < plan(reads)[k].end(),
    ensures
        0 <= i < reads.len(),
        reads[i] == (plan(reads)[k] is Read),
    decreases reads.len(),
{
    lemma_plan_end(reads);
    law_plan_keeps_order(reads);
    if reads.len() > 0 {
        let head = reads.drop_last();
        lemma_plan_end(head);
        law_plan_keeps_order(head);
        let before = plan(head);
        let now = plan(reads);
        let last = reads.len() - 1;
        if reads.last() && last > 0 && reads[last - 1] {
            assert(head.last() == reads[last - 1]);
            assert(now.len() == before.len());
            if k < now.len() - 1 {
                assert(now[k] == before[k]);
                law_plan_keeps_kinds(head, k, i);
                assert(head[i] == reads[i]);
            } else if i < last {
                assert(before[k].start() == now[k].start());
                law_plan_keeps_kinds(head, k, i);
                assert(head[i] == reads[i]);
            }
        } else {
            assert(now.len() == before.len() + 1);
            if k < before.len() {
                assert(now[k] == before[k]);
                law_plan_keeps_kinds(head, k, i);
                assert(head[i] == reads[i]);
            }
        }
    }
}

/// No two read steps follow each other: reads in a row are never split.
pub proof fn law_plan_joins_reads(reads: Seq<bool>, k: int)
    requires
        reads.len() <= usize::MAX,
        0 < k < plan(reads).len(),
    ensures
        !(plan(reads)[k] is Read && plan(reads)[k - 1] is Read),
    decreases reads.len(),
{
    lemma_plan_end(reads);
    if reads.len() > 0 {
        let head = reads.drop_last();
        lemma_plan_end(head);
        let before = plan(head);
        let now = plan(reads);
        let last = reads.len() - 1;
        if reads.last() && last > 0 && reads[last - 1] {
            assert(head.last() == reads[last - 1]);
            assert(now.len() == before.len());
            assert(now[k - 1] == before[k - 1]);
            if k < now.len() - 1 {
                assert(now[k] == before[k]);
            }
            law_plan_joins_reads(head, k);
        } else {
            assert(now.len() == before.len() + 1);
            assert(now[k - 1] == before[k - 1]);
            if k < before.len() {
                assert(now[k] == before[k]);
                law_plan_joins_reads(head, k);
            } else if reads.last() {
                assert(head.last() == reads[last - 1]);
            }
        }
    }
}

/// Turns a list of wishes into the list of requests that carry them out.
pub fn plan_requests<P, V>(wishes: &[Rw<P, V>]) -> (steps: Vec<Step>)
    ensures
        steps@ == plan(reads_of(wishes@)),
{
    let ghost reads = reads_of(wishes@);
    let mut steps: Vec<Step> = Vec::new();
    let mut i: usize = 0;
    assert(reads.subrange(0, 0) =~= Seq::<bool>::empty());
    while i < wishes.len()
        invariant
            i <= wishes@.len(),
            reads == reads_of(wishes@),
            steps@ == plan(reads.subrange(0, i as int)),
        decreases wishes@.len() - i,
    {
        proof {
            let now = reads.subrange(0, i + 1);
            assert(now.drop_last() =~= reads.subrange(0, i as int));
            assert(now.last() == wishes@[i as int].spec_is_read());
            if i > 0 {
                assert(now[i - 1] == wishes@[i - 1].spec_is_read());
            }
            lemma_plan_end(reads.subrange(0, i as int));
        }
        if !wishes[i].is_read() {
            steps.push(Step::Write { at: i });
        } else if i > 0 && wishes[i - 1].is_read() {
            let last = steps.pop();
            let from: usize = match last {
                Some(Step::Read { from, to }) => from,
                Some(Step::Write { at }) => at,
                None => 0,
            };
            steps.push(Step::Read { from, to: i + 1 });
        } else {
            steps.push(Step::Read { from: i, to: i + 1 });
        }
        i = i + 1;
    }
    assert(reads.subrange(0, i as int) =~= reads);
    steps
}

/// The sum of the first `n` sizes.
pub open spec fn total(sizes: Seq<usize>, from: int, to: int) -> int
    decreases to - from,
{
    if to <= from {
        0
    } else {
        total(sizes, from, to - 1) + sizes[to - 1]
    }
}

/// Where the batch that begins at `from` ends when values of the given
/// sizes are collected until they come to `limit` bytes or more: behind the
/// first value with which they do, or behind the last value.
pub open spec fn batch_end(sizes: Seq<usize>, from: int, limit: int, at: int) -> int
    decreases sizes.len() - at,
{
    if at >= sizes.len() {
        sizes.len() as int
    } else if total(sizes, from, at + 1) >= limit {
        at + 1
    } else {
        batch_end(sizes, from, limit, at + 1)
    }
}

/// The ends of the batches into which the values from `from` on fall.
pub open spec fn batch_ends(sizes: Seq<usize>, from: int, limit: int) -> Seq<usize>
    decreases sizes.len() - from,
{
    if from < 0 || from >= sizes.len() {
        Seq::empty()
    } else {
        let end = batch_end(sizes, from, limit, from);
        if end <= from || end > sizes.len() {
            Seq::empty()
        } else {
            seq![end as usize] + batch_ends(sizes, end, limit)
        }
    }
}

/// A batch ends behind the place where the search for its end began.
pub proof fn lemma_batch_end(sizes: Seq<usize>, from: int, limit: int, at: int)
    requires
        0 <= from <= at < sizes.len(),
    ensures
        at < batch_end(sizes, from, limit, at) <= sizes.len(),
    decreases sizes.len() - at,
{
    if total(sizes, from, at + 1) < limit {
        if at + 1 < sizes.len() {
            lemma_batch_end(sizes, from, limit, at + 1);
        } else {
            assert(batch_end(sizes, from, limit, at + 1) == sizes.len());
        }
    }
}

/// A batch is as short as it can be: it holds at least one value, no
/// beginning of it comes to the limit, and unless it is the last batch the
/// whole of it does.
pub proof fn law_batch_is_minimal(sizes: Seq<usize>, from: int, limit: int, j: int)
    requires
        0 <= from < sizes.len(),
        from < j <= batch_end(sizes, from, limit, from),
    ensures
        from < batch_end(sizes, from, limit, from) <= sizes.len(),
        j < batch_end(sizes, from, limit, from) ==> total(sizes, from, j) < limit,
        batch_end(sizes, from, limit, from) < sizes.len() ==> total(
            sizes,
            from,
            batch_end(sizes, from, limit, from),
        ) >= limit,
{
    lemma_batch_end(sizes, from, limit, from);
    lemma_batch_search(sizes, from, limit, from, j);
}

/// While the end of a batch is searched from `at` on, no beginning of the
/// batch up to its end comes to the limit, and the batch itself does unless
/// the values run out.
pub proof fn lemma_batch_search(sizes: Seq<usize>, from: int, limit: int, at: int, j: int)
    requires
        0 <= from <= at < sizes.len(),
        at < j <= batch_end(sizes, from, limit, at),
    ensures
        j < batch_end(sizes, from, limit, at) ==> total(sizes, from, j) < limit,
        batch_end(sizes, from, limit, at) < sizes.len() ==> total(
            sizes,
            from,
            batch_end(sizes, from, limit, at),
        ) >= limit,
    decreases sizes.len() - at,
{
    if total(sizes, from, at + 1) < limit {
        if at + 1 < sizes.len() {
            lemma_batch_end(sizes, from, limit, at + 1);
            if j > at + 1 {
                lemma_batch_search(sizes, from, limit, at + 1, j);
            } else {
                lemma_batch_search(sizes, from, limit, at + 1, at + 2);
            }
        } else {
            assert(batch_end(sizes, from, limit, at + 1) == sizes.len());
        }
    }
}

/// The batches lie one behind the other and leave nothing out: there is
/// none when no value is left; else the first is the batch that begins at
/// `from`, the others are the batches of what follows it, and the last ends
/// behind the last value.
pub proof fn law_batches_tile(sizes: Seq<usize>, from: int, limit: int)
    requires
        0 <= from <= sizes.len() <= usize::MAX,
    ensures
        batch_ends(sizes, from, limit).len() == 0 <==> from == sizes.len(),
        from < sizes.len() ==> {
            &&& batch_ends(sizes, from, limit)[0] == batch_end(sizes, from, limit, from)
            &&& batch_ends(sizes, from, limit).drop_first() == batch_ends(
                sizes,
                batch_end(sizes, from, limit, from),
                limit,
            )
            &&& batch_ends(sizes, from, limit).last() == sizes.len()
        },
    decreases sizes.len() - from,
{
    if from < sizes.len() {
        lemma_batch_end(sizes, from, limit, from);
        let end = batch_end(sizes, from, limit, from);
        let rest = batch_ends(sizes, end, limit);
        law_batches_tile(sizes, end, limit);
        assert((seq![end as usize] + rest).drop_first() =~= rest);
        if end < sizes.len() {
            assert((seq![end as usize] + rest).last() == rest.last());
        }
    }
}

/// Splits values of the given response sizes into batches: each batch is
/// closed as soon as its values come to `limit` bytes or more, and what is
/// left at the end is a batch of its own. The result holds the place behind
/// the last value of each batch.
pub fn split_batches(sizes: &[usize], limit: usize) -> (ends: Vec<usize>)
    ensures
        ends@ == batch_ends(sizes@, 0, limit as int),
{
    let mut ends: Vec<usize> = Vec::new();
    let mut from: usize = 0;
    let mut at: usize = 0;
    // The bytes of the open batch, or `limit` once there are that many.
    let mut sum: usize = 0;
    while at < sizes.len()
        invariant
            from <= at <= sizes@.len(),
            sum == total(sizes@, from as int, at as int),
            sum < limit || at == from,
            at == from ==> sum == 0,
            batch_ends(sizes@, 0, limit as int) == ends@ + batch_ends(
                sizes@,
                from as int,
                limit as int,
            ),
            from < sizes@.len() ==> batch_end(sizes@, from as int, limit as int, from as int)
                == batch_end(sizes@, from as int, limit as int, at as int),
        decreases sizes@.len() - at,
    {
        let size = sizes[at];
        assert(total(sizes@, from as int, at + 1) == sum + size);
        if size >= limit - sum || sum >= limit {
            // the batch is full
            proof {
                assert(batch_end(sizes@, from as int, limit as int, at as int) == at + 1);
                let rest = batch_ends(sizes@, at + 1, limit as int);
                assert(batch_ends(sizes@, from as int, limit as int) == seq![(at + 1) as usize]
                    + rest);
                assert(ends@ + (seq![(at + 1) as usize] + rest) =~= ends@.push((at + 1) as usize)
                    + rest);
            }
            ends.push(at + 1);
            from = at + 1;
            sum = 0;
        } else {
            sum = sum + size;
        }
        at = at + 1;
    }
    if from < sizes.len() {
        proof {
            assert(batch_end(sizes@, from as int, limit as int, at as int) == sizes@.len());
            assert(batch_ends(sizes@, sizes@.len() as int, limit as int) =~= Seq::<
                usize,
            >::empty());
            assert(batch_ends(sizes@, from as int, limit as int) =~= seq![sizes@.len() as usize]);
            assert(ends@ + seq![sizes@.len() as usize] =~= ends@.push(sizes@.len() as usize));
        }
        ends.push(sizes.len());
    } else {
        assert(batch_ends(sizes@, from as int, limit as int) =~= Seq::<usize>::empty());
        assert(ends@ + Seq::<usize>::empty() =~= ends@);
    }
    ends
}

/// The place of the first `=` at or after `from`, or the length of the text
/// if there is none.
pub open spec fn equals_sign(text: Seq<u8>, from: int) -> int
    decreases text.len() - from,
{
    if from < 0 || from >= text.len() {
        text.len() as int
    } else if text[from] == 61 {
        from
    } else {
        equals_sign(text, from + 1)
    }
}

/// Finds where a wish of the form `name=value` is to be split: the place of
/// its first `=`. What stands in front is the name, what follows is the
/// value, which may hold further `=`. A text without `=` is no such wish.
pub fn find_assignment(text: &str) -> (r: Option<usize>)
    ensures
        match r {
            Some(i) => i < vstd::utf8::encode_utf8(text@).len() && i == equals_sign(vstd::utf8::encode_utf8(text@), 0),
            None => equals_sign(vstd::utf8::encode_utf8(text@), 0) == vstd::utf8::encode_utf8(text@).len(),
        },
{
    let bytes = text.as_bytes();
    let mut i: usize = 0;
    while i < bytes.len()
        invariant
            i <= bytes@.len(),
            bytes@ == vstd::utf8::encode_utf8(text@),
            equals_sign(bytes@, 0) == equals_sign(bytes@, i as int),
        decreases bytes@.len() - i,
    {
        if bytes[i] == 61 {
            return Some(i);
        }
        i = i + 1;
    }
    None
}

} // verus!
