//! Telemetry channels: records are queued and handed out in numbered batches
//! once a batch is full (or when the channel is closed). Each batch names the
//! file it belongs in, `<base>_<index padded to six digits>.parquet`.

use crate::decimal::{append_zero_padded, lemma_zero_padded_value, zero_padded};
use vstd::arithmetic::div_mod::lemma_fundamental_div_mod_converse;
use vstd::prelude::*;

verus! {

/// Width of the zero-padded batch number in a batch file name.
pub const BATCH_INDEX_WIDTH: usize = 6;

/// The file name of batch number `index` of a channel with base `base`:
/// `<base>_<index zero-padded to six digits>.parquet`.
pub open spec fn batch_url(base: Seq<char>, index: nat) -> Seq<char> {
    base + seq!['_'] + zero_padded(index, BATCH_INDEX_WIDTH as nat) + seq![
        '.',
        'p',
        'a',
        'r',
        'q',
        'u',
        'e',
        't',
    ]
}

/// Builds the file name of batch number `index` of a channel with base `base`.
pub fn make_batch_url(base: &str, index: usize) -> (url: String)
    ensures
        url@ == batch_url(base@, index as nat),
{
    let mut url = String::new();
    url.append(base);
    url.append("_");
    append_zero_padded(&mut url, index, BATCH_INDEX_WIDTH);
    url.append(".parquet");
    proof {
        reveal_strlit("_");
        reveal_strlit(".parquet");
    }
    assert(url@ =~= batch_url(base@, index as nat));
    url
}


/// The smallest queue length at which a channel with batch size `batch_size`
/// hands out a batch: the batch size itself, or one when it is zero.
pub open spec fn flush_threshold(batch_size: nat) -> nat {
    if batch_size == 0 {
        1
    } else {
        batch_size
    }
}

/// The batch number that follows `index`; batch numbers wrap around after
/// `usize::MAX`, as an atomic counter's `fetch_add` does.
pub open spec fn next_batch_index(index: nat) -> nat {
    if index < usize::MAX {
        index + 1
    } else {
        0
    }
}

/// What a channel with batch size `batch_size` holds in its queue after the
/// records `items` were written, one after another, into it while it held
/// `queue`.
pub open spec fn queue_after<T>(queue: Seq<T>, batch_size: nat, items: Seq<T>) -> Seq<T>
    decreases items.len(),
{
    if items.len() == 0 {
        queue
    } else {
        let pushed = queue_after(queue, batch_size, items.drop_last()).push(items.last());
        if pushed.len() >= batch_size {
            Seq::empty()
        } else {
            pushed
        }
    }
}

/// The contents of the batches, oldest first, that those same writes hand out.
pub open spec fn batches_after<T>(queue: Seq<T>, batch_size: nat, items: Seq<T>) -> Seq<Seq<T>>
    decreases items.len(),
{
    if items.len() == 0 {
        Seq::empty()
    } else {
        let earlier = batches_after(queue, batch_size, items.drop_last());
        let pushed = queue_after(queue, batch_size, items.drop_last()).push(items.last());
        if pushed.len() >= batch_size {
            earlier.push(pushed)
        } else {
            earlier
        }
    }
}

/// The records of `batches`, one batch after the other.
pub open spec fn joined<T>(batches: Seq<Seq<T>>) -> Seq<T>
    decreases batches.len(),
{
    if batches.len() == 0 {
        Seq::empty()
    } else {
        joined(batches.drop_last()) + batches.last()
    }
}

/// Different batch numbers name different files: the file name of a batch
/// determines its number.
pub proof fn lemma_batch_urls_distinct(base: Seq<char>, i: nat, j: nat)
    requires
        batch_url(base, i) == batch_url(base, j),
    ensures
        i == j,
{
    let suffix = seq!['.', 'p', 'a', 'r', 'q', 'u', 'e', 't'];
    let pi = zero_padded(i, BATCH_INDEX_WIDTH as nat);
    let pj = zero_padded(j, BATCH_INDEX_WIDTH as nat);
    let url = batch_url(base, i);
    let start: int = base.len() as int + 1;
    assert(url.len() == base.len() + 1 + pi.len() + suffix.len());
    assert(batch_url(base, j).len() == base.len() + 1 + pj.len() + suffix.len());
    assert(pi.len() == pj.len());
    assert(url.subrange(start, start + pi.len()) =~= pi);
    assert(batch_url(base, j).subrange(start, start + pj.len()) =~= pj);
    lemma_zero_padded_value(i, BATCH_INDEX_WIDTH as nat);
    lemma_zero_padded_value(j, BATCH_INDEX_WIDTH as nat);
}

/// Writing a single record `x`: it joins the queue, and the queue is handed
/// out as a batch once that makes it reach the batch size.
pub proof fn lemma_write_one<T>(queue: Seq<T>, batch_size: nat, x: T)
    ensures
        queue_after(queue, batch_size, seq![x]) == (if queue.push(x).len() >= batch_size {
            Seq::<T>::empty()
        } else {
            queue.push(x)
        }),
        batches_after(queue, batch_size, seq![x]) == (if queue.push(x).len() >= batch_size {
            seq![queue.push(x)]
        } else {
            Seq::<Seq<T>>::empty()
        }),
{
    assert(seq![x].drop_last() =~= Seq::<T>::empty());
    assert(queue_after(queue, batch_size, Seq::<T>::empty()) == queue);
    assert(batches_after(queue, batch_size, Seq::<T>::empty()) == Seq::<Seq<T>>::empty());
    assert(Seq::<Seq<T>>::empty().push(queue.push(x)) =~= seq![queue.push(x)]);
}

/// Writing `items` and then `x` leaves the channel as writing `x` into the
/// channel that writing `items` left does; the batches handed out are those of
/// the first writes followed by those of the last one.
pub proof fn lemma_write_composes<T>(queue: Seq<T>, batch_size: nat, items: Seq<T>, x: T)
    ensures
        queue_after(queue, batch_size, items.push(x)) == queue_after(
            queue_after(queue, batch_size, items),
            batch_size,
            seq![x],
        ),
        batches_after(queue, batch_size, items.push(x)) == batches_after(
            queue,
            batch_size,
            items,
        ) + batches_after(queue_after(queue, batch_size, items), batch_size, seq![x]),
{
    let mid = queue_after(queue, batch_size, items);
    lemma_write_one(mid, batch_size, x);
    assert(items.push(x).drop_last() =~= items);
    let earlier = batches_after(queue, batch_size, items);
    assert(earlier + Seq::<Seq<T>>::empty() =~= earlier);
    assert(earlier + seq![mid.push(x)] =~= earlier.push(mid.push(x)));
}

/// No record is lost, duplicated or reordered: the batches handed out while
/// `items` are written, one after the other, followed by what is still
/// queued, are exactly what was queued before followed by `items`.
pub proof fn lemma_records_conserved<T>(queue: Seq<T>, batch_size: nat, items: Seq<T>)
    ensures
        joined(batches_after(queue, batch_size, items)) + queue_after(queue, batch_size, items)
            == queue + items,
    decreases items.len(),
{
    if items.len() == 0 {
        assert(joined(Seq::<Seq<T>>::empty()) == Seq::<T>::empty());
        assert(Seq::<T>::empty() + queue =~= queue);
        assert(queue + items =~= queue);
    } else {
        let prefix = items.drop_last();
        lemma_records_conserved(queue, batch_size, prefix);
        let earlier = batches_after(queue, batch_size, prefix);
        let mid = queue_after(queue, batch_size, prefix);
        let pushed = mid.push(items.last());
        assert(prefix.push(items.last()) =~= items);
        if pushed.len() >= batch_size {
            assert(earlier.push(pushed).drop_last() =~= earlier);
            assert(joined(earlier.push(pushed)) == joined(earlier) + pushed);
            assert(joined(earlier) + pushed + Seq::<T>::empty() =~= (joined(earlier) + mid).push(
                items.last(),
            ));
        } else {
            assert(joined(earlier) + pushed =~= (joined(earlier) + mid).push(items.last()));
        }
        assert((queue + prefix).push(items.last()) =~= queue + items);
    }
}

/// Starting from a queue shorter than the flush threshold (as every channel's
/// queue is), every batch handed out holds exactly the threshold's number of
/// records, and the queue stays shorter than the threshold.
pub proof fn lemma_batches_full<T>(queue: Seq<T>, batch_size: nat, items: Seq<T>)
    requires
        queue.len() < flush_threshold(batch_size),
    ensures
        queue_after(queue, batch_size, items).len() < flush_threshold(batch_size),
        forall|i: int|
            0 <= i < batches_after(queue, batch_size, items).len() ==> (#[trigger] batches_after(
                queue,
                batch_size,
                items,
            )[i]).len() == flush_threshold(batch_size),
    decreases items.len(),
{
    if items.len() > 0 {
        let prefix = items.drop_last();
        lemma_batches_full(queue, batch_size, prefix);
        let earlier = batches_after(queue, batch_size, prefix);
        let pushed = queue_after(queue, batch_size, prefix).push(items.last());
        if pushed.len() >= batch_size {
            assert(pushed.len() == flush_threshold(batch_size));
            assert forall|i: int| 0 <= i < earlier.push(pushed).len() implies (#[trigger] earlier.push(
                pushed,
            )[i]).len() == flush_threshold(batch_size) by {
                if i < earlier.len() {
                    assert(earlier.push(pushed)[i] == earlier[i]);
                }
            }
        }
    }
}

/// Writing `items` into an empty channel whose batch size `b` is at least one
/// hands out `items.len() / b` batches, batch `j` holding the records `j*b`
/// up to `j*b + b`, and leaves the remaining `items.len() % b` records queued.
pub proof fn lemma_batches_are_slices<T>(b: nat, items: Seq<T>)
    requires
        b >= 1,
    ensures
        batches_after(Seq::<T>::empty(), b, items).len() == items.len() / b,
        queue_after(Seq::<T>::empty(), b, items) == items.subrange(
            ((items.len() / b) * b) as int,
            items.len() as int,
        ),
        (items.len() / b) * b + items.len() % b == items.len(),
        forall|j: int|
            0 <= j < items.len() / b ==> #[trigger] batches_after(Seq::<T>::empty(), b, items)[j]
                == items.subrange(j * b, j * b + b),
    decreases items.len(),
{
    let n = items.len() as int;
    let bi = b as int;
    if n == 0 {
        lemma_fundamental_div_mod_converse(0, bi, 0, 0);
        assert(items.subrange(0, 0) =~= Seq::<T>::empty());
    } else {
        let prefix = items.drop_last();
        let k = n - 1;
        lemma_batches_are_slices(b, prefix);
        let q = k / bi;
        let r = k % bi;
        assert(q * bi + r == k);
        assert(0 <= r < bi);
        let mid = queue_after(Seq::<T>::empty(), b, prefix);
        let earlier = batches_after(Seq::<T>::empty(), b, prefix);
        let pushed = mid.push(items.last());
        assert(prefix.push(items.last()) =~= items);
        assert(pushed =~= items.subrange(q * bi, n));
        assert forall|j: int| 0 <= j < q implies #[trigger] earlier[j] == items.subrange(
            j * bi,
            j * bi + bi,
        ) by {
            assert(j * bi + bi <= q * bi) by (nonlinear_arith)
                requires
                    0 <= j < q,
                    bi >= 1,
            ;
            assert(earlier[j] == prefix.subrange(j * bi, j * bi + bi));
            assert(j * bi >= 0) by (nonlinear_arith)
                requires
                    0 <= j,
                    bi >= 1,
            ;
            assert(prefix.subrange(j * bi, j * bi + bi) =~= items.subrange(j * bi, j * bi + bi));
        }
        if r + 1 >= bi {
            assert((q + 1) * bi == q * bi + bi) by (nonlinear_arith);
            assert(n == (q + 1) * bi + 0);
            lemma_fundamental_div_mod_converse(n, bi, q + 1, 0);
            assert(items.subrange((q + 1) * bi, n) =~= Seq::<T>::empty());
            assert forall|j: int| 0 <= j < q + 1 implies #[trigger] earlier.push(pushed)[j]
                == items.subrange(j * bi, j * bi + bi) by {
                if j < q {
                    assert(earlier.push(pushed)[j] == earlier[j]);
                }
            }
        } else {
            lemma_fundamental_div_mod_converse(n, bi, q, r + 1);
        }
    }
}

/// The batch number reached from `index` after `count` batches were handed out.
pub open spec fn advanced(index: nat, count: nat) -> nat
    decreases count,
{
    if count == 0 {
        index
    } else {
        next_batch_index(advanced(index, (count - 1) as nat))
    }
}

/// The batches among `flushed`, in order.
pub open spec fn handed_out<T>(flushed: Seq<Option<Batch<T>>>) -> Seq<Batch<T>>
    decreases flushed.len(),
{
    if flushed.len() == 0 {
        Seq::empty()
    } else {
        let earlier = handed_out(flushed.drop_last());
        match flushed.last() {
            Some(batch) => earlier.push(batch),
            None => earlier,
        }
    }
}

/// The records that `batches` hold, batch by batch.
pub open spec fn contents<T>(batches: Seq<Batch<T>>) -> Seq<Seq<T>> {
    batches.map_values(|batch: Batch<T>| batch.items@)
}

/// `states[0]`, `states[1]`, ... are the states a channel goes through as
/// `items[0]`, `items[1]`, ... are written into it, the `i`-th write handing
/// out `flushed[i]`.
pub open spec fn writes_chain<T>(
    states: Seq<Channel<T>>,
    items: Seq<T>,
    flushed: Seq<Option<Batch<T>>>,
) -> bool {
    &&& states.len() == items.len() + 1
    &&& flushed.len() == items.len()
    &&& forall|i: int|
        0 <= i < items.len() ==> #[trigger] states[i].wrote(items[i], states[i + 1], flushed[i])
}

/// A sequence of writes follows the model: after writing `items`, one after
/// the other, the channel holds `queue_after` of them and has handed out the
/// batches `batches_after`, numbered one after the other from where it stood,
/// each naming its file after that number; batch size and base name stay.
pub proof fn lemma_writes_follow_model<T>(
    states: Seq<Channel<T>>,
    items: Seq<T>,
    flushed: Seq<Option<Batch<T>>>,
)
    requires
        writes_chain(states, items, flushed),
    ensures
        states.last().batch_size() == states[0].batch_size(),
        states.last().base_url() == states[0].base_url(),
        states.last().queue() == queue_after(states[0].queue(), states[0].batch_size(), items),
        contents(handed_out(flushed)) == batches_after(
            states[0].queue(),
            states[0].batch_size(),
            items,
        ),
        states.last().next_index() == advanced(
            states[0].next_index(),
            handed_out(flushed).len(),
        ),
        forall|j: int|
            0 <= j < handed_out(flushed).len() ==> {
                &&& (#[trigger] handed_out(flushed)[j]).index == advanced(
                    states[0].next_index(),
                    j as nat,
                )
                &&& handed_out(flushed)[j].url@ == batch_url(
                    states[0].base_url(),
                    advanced(states[0].next_index(), j as nat),
                )
            },
    decreases items.len(),
{
    let n = items.len() as int;
    let first = states[0];
    if n == 0 {
        assert(contents(Seq::<Batch<T>>::empty()) =~= Seq::<Seq<T>>::empty());
    } else {
        let ps = states.drop_last();
        let pi = items.drop_last();
        let pf = flushed.drop_last();
        assert forall|i: int| 0 <= i < pi.len() implies #[trigger] ps[i].wrote(
            pi[i],
            ps[i + 1],
            pf[i],
        ) by {
            assert(states[i].wrote(items[i], states[i + 1], flushed[i]));
        }
        lemma_writes_follow_model(ps, pi, pf);
        let before = states[n - 1];
        let after = states[n];
        assert(ps.last() == before);
        assert(before.wrote(items[n - 1], after, flushed[n - 1]));
        lemma_write_composes(first.queue(), first.batch_size(), pi, items.last());
        assert(pi.push(items.last()) =~= items);
        let earlier = handed_out(pf);
        let bs = batches_after(first.queue(), first.batch_size(), pi);
        match flushed[n - 1] {
            Some(batch) => {
                assert(handed_out(flushed) == earlier.push(batch));
                assert(contents(earlier.push(batch)) =~= contents(earlier).push(batch.items@));
                assert(bs + seq![batch.items@] =~= bs.push(batch.items@));
                assert forall|j: int| 0 <= j < earlier.push(batch).len() implies {
                    &&& (#[trigger] earlier.push(batch)[j]).index == advanced(
                        first.next_index(),
                        j as nat,
                    )
                    &&& earlier.push(batch)[j].url@ == batch_url(
                        first.base_url(),
                        advanced(first.next_index(), j as nat),
                    )
                } by {
                    if j < earlier.len() {
                        assert(earlier.push(batch)[j] == earlier[j]);
                    }
                }
            },
            None => {
                assert(handed_out(flushed) == earlier);
                assert(bs + Seq::<Seq<T>>::empty() =~= bs);
            },
        }
    }
}

/// The records `j*b` up to `j*b + b` of `items`, or up to their end.
pub open spec fn batch_slice<T>(items: Seq<T>, b: nat, j: int) -> Seq<T> {
    let end = j * b + b;
    items.subrange(j * b, if end < items.len() { end } else { items.len() as int })
}

/// Writing records `items` into a fresh channel with batch size `b >= 1`,
/// then closing it, hands out `ceil(items.len() / b)` batches: batch `j`
/// holds the records `j*b` up to `j*b + b` (the last one what is left),
/// carries the number `j` places after the channel's first and names its
/// file after that number. Every record goes out exactly once, in order, and
/// the channel is left empty.
pub proof fn lemma_writes_then_close<T>(
    states: Seq<Channel<T>>,
    items: Seq<T>,
    flushed: Seq<Option<Batch<T>>>,
    closed: Channel<T>,
    last: Option<Batch<T>>,
)
    requires
        writes_chain(states, items, flushed),
        states[0].queue() == Seq::<T>::empty(),
        states[0].batch_size() >= 1,
        states.last().closed_into(closed, last),
    ensures
        ({
            let all = handed_out(flushed.push(last));
            let b = states[0].batch_size();
            &&& all.len() == items.len() / b + (if items.len() % b == 0 {
                0nat
            } else {
                1nat
            })
            &&& forall|j: int|
                0 <= j < all.len() ==> {
                    &&& (#[trigger] all[j]).items@ == batch_slice(items, b, j)
                    &&& all[j].index == advanced(states[0].next_index(), j as nat)
                    &&& all[j].url@ == batch_url(
                        states[0].base_url(),
                        advanced(states[0].next_index(), j as nat),
                    )
                }
            &&& closed.queue() == Seq::<T>::empty()
            &&& closed.next_index() == advanced(states[0].next_index(), all.len())
        }),
{
    let first = states[0];
    let b = first.batch_size();
    let bi = b as int;
    let n = items.len() as int;
    lemma_writes_follow_model(states, items, flushed);
    lemma_batches_are_slices(b, items);
    let earlier = handed_out(flushed);
    let q = n / bi;
    assert(flushed.push(last).drop_last() =~= flushed);
    assert(earlier.len() == contents(earlier).len());
    assert forall|j: int| 0 <= j < earlier.len() implies (#[trigger] earlier[j]).items@
        == batch_slice(items, b, j) by {
        assert(contents(earlier)[j] == earlier[j].items@);
        assert(j * bi + bi <= q * bi) by (nonlinear_arith)
            requires
                0 <= j < q,
                bi >= 1,
        ;
    }
    match last {
        Some(batch) => {
            let all = earlier.push(batch);
            assert(handed_out(flushed.push(last)) == all);
            assert(items.len() % b != 0);
            assert(batch.items@ == items.subrange(q * bi, n));
            assert(batch_slice(items, b, q) =~= items.subrange(q * bi, n));
            assert forall|j: int| 0 <= j < all.len() implies {
                &&& (#[trigger] all[j]).items@ == batch_slice(items, b, j)
                &&& all[j].index == advanced(first.next_index(), j as nat)
                &&& all[j].url@ == batch_url(first.base_url(), advanced(first.next_index(), j as nat))
            } by {
                if j < earlier.len() {
                    assert(all[j] == earlier[j]);
                }
            }
        },
        None => {
            assert(handed_out(flushed.push(last)) == earlier);
            assert(items.subrange(q * bi, n).len() == 0);
        },
    }
}

/// A full (or final) batch of records, with its number and the file it goes to.
pub struct Batch<T> {
    pub index: usize,
    pub url: String,
    pub items: Vec<T>,
}

/// A queue of telemetry records that hands them out in numbered batches.
pub struct Channel<T> {
    tlm_queue: Vec<T>,
    batch_size: usize,
    batch_index: usize,
    base_url: String,
}

impl<T> Channel<T> {
    /// The records written and not yet handed out, oldest first.
    pub closed spec fn queue(&self) -> Seq<T> {
        self.tlm_queue@
    }

    /// The number of records at which a batch is handed out.
    pub closed spec fn batch_size(&self) -> nat {
        self.batch_size as nat
    }

    /// The number the next batch will carry.
    pub closed spec fn next_index(&self) -> nat {
        self.batch_index as nat
    }

    /// The base of the batch file names.
    pub closed spec fn base_url(&self) -> Seq<char> {
        self.base_url@
    }

    /// `batch` is the batch this channel hands out next, holding `items`.
    pub open spec fn issues(&self, batch: Batch<T>, items: Seq<T>) -> bool {
        &&& batch.index == self.next_index()
        &&& batch.url@ == batch_url(self.base_url(), self.next_index())
        &&& batch.items@ == items
    }

    /// `after` is this channel once `tlm` was written into it, and `flushed`
    /// is what that write handed out: `tlm` joins the queue, and a queue that
    /// thereby reaches the batch size goes out whole as the next batch.
    pub open spec fn wrote(&self, tlm: T, after: Self, flushed: Option<Batch<T>>) -> bool {
        &&& after.batch_size() == self.batch_size()
        &&& after.base_url() == self.base_url()
        &&& after.queue() == queue_after(self.queue(), self.batch_size(), seq![tlm])
        &&& after.queue().len() < flush_threshold(self.batch_size())
        &&& (flushed is Some <==> self.queue().len() + 1 >= self.batch_size())
        &&& match flushed {
            Some(batch) => {
                &&& batches_after(self.queue(), self.batch_size(), seq![tlm]) == seq![batch.items@]
                &&& self.issues(batch, self.queue().push(tlm))
                &&& after.next_index() == next_batch_index(self.next_index())
            },
            None => {
                &&& batches_after(self.queue(), self.batch_size(), seq![tlm]) == Seq::<Seq<T>>::empty()
                &&& after.next_index() == self.next_index()
            },
        }
    }

    /// `after` is this channel once it was closed, and `flushed` is what
    /// closing handed out: whatever was queued, as the next batch, if anything was.
    pub open spec fn closed_into(&self, after: Self, flushed: Option<Batch<T>>) -> bool {
        &&& after.batch_size() == self.batch_size()
        &&& after.base_url() == self.base_url()
        &&& after.queue() == Seq::<T>::empty()
        &&& (flushed is Some <==> self.queue().len() > 0)
        &&& match flushed {
            Some(batch) => {
                &&& self.issues(batch, self.queue())
                &&& after.next_index() == next_batch_index(self.next_index())
            },
            None => after.next_index() == self.next_index(),
        }
    }

    /// An empty channel whose batches hold `batch_size` records and whose
    /// files are named after `base_url`.
    pub fn new(base_url: String, batch_size: usize) -> (channel: Self)
        ensures
            channel.queue() == Seq::<T>::empty(),
            channel.batch_size() == batch_size,
            channel.next_index() == 0,
            channel.base_url() == base_url@,
    {
        Channel { tlm_queue: Vec::with_capacity(batch_size), batch_size, batch_index: 0, base_url }
    }

    /// Queues `tlm`; once the queue holds a full batch, hands it out.
    pub fn write(&mut self, tlm: T) -> (flushed: Option<Batch<T>>)
        ensures
            old(self).wrote(tlm, *final(self), flushed),
    {
        let ghost pre = *self;
        self.tlm_queue.push(tlm);
        proof {
            lemma_write_one(pre.queue(), pre.batch_size(), tlm);
        }
        if self.tlm_queue.len() >= self.batch_size {
            self.dispatch()
        } else {
            None
        }
    }

    /// Hands out whatever is queued, as a batch, unless nothing is.
    fn dispatch(&mut self) -> (flushed: Option<Batch<T>>)
        ensures
            old(self).closed_into(*final(self), flushed),
    {
        if self.tlm_queue.len() == 0 {
            assert(self.tlm_queue@ =~= Seq::<T>::empty());
            return None;
        }
        let mut items: Vec<T> = Vec::with_capacity(self.batch_size);
        std::mem::swap(&mut items, &mut self.tlm_queue);
        let index = self.batch_index;
        self.batch_index = self.batch_index.wrapping_add(1);
        let url = make_batch_url(self.base_url.as_str(), index);
        Some(Batch { index, url, items })
    }

    /// Hands out the records still queued, as a last batch, unless none are.
    pub fn close(&mut self) -> (flushed: Option<Batch<T>>)
        ensures
            old(self).closed_into(*final(self), flushed),
    {
        self.dispatch()
    }
}

} // verus!
