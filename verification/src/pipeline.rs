//! The filter as a whole: a record is forwarded exactly when it has a key
//! and the cache has not seen that key.

use crate::cache::{CacheState, CapacityExceeded, UniquenessCache};
use crate::filter::KeyExtractor;
use crate::reader::{after_first_record, first_record, records, StdinReader};
use vstd::prelude::*;

verus! {

/// The answer to a record whose key is `key`: a record without a key is
/// never forwarded and never reaches the cache.
pub open spec fn record_verdict(state: CacheState, key: Option<Seq<u8>>) -> Result<
    bool,
    CapacityExceeded,
> {
    match key {
        Some(bytes) => state.verdict(bytes),
        None => Ok(false),
    }
}

/// The state of the cache after a record whose key is `key`.
pub open spec fn record_next(state: CacheState, key: Option<Seq<u8>>) -> CacheState {
    match key {
        Some(bytes) => state.next(bytes),
        None => state,
    }
}

/// How a run over a sequence of records ends.
pub struct Outcome {
    /// The state of the cache at the end.
    pub state: CacheState,
    /// The records forwarded, in the order of the input.
    pub forwarded: Seq<Seq<u8>>,
    /// The number of records taken from the input, the one that failed
    /// counted with them.
    pub read: nat,
    /// Whether the run ended on a record that the cache refused.
    pub failed: bool,
}

/// The outcome of a run over `records` that starts in `state` and takes
/// keys with `extractor`. The run goes through the records in order and
/// ends at the first one that the cache refuses; that record is not
/// forwarded and leaves the cache as it was.
pub open spec fn outcome(extractor: KeyExtractor, state: CacheState, records: Seq<Seq<u8>>) -> Outcome
    decreases records.len(),
{
    if records.len() == 0 {
        Outcome { state, forwarded: Seq::empty(), read: 0, failed: false }
    } else {
        let key = extractor.key_of(records[0]);
        match record_verdict(state, key) {
            Err(_) => Outcome { state, forwarded: Seq::empty(), read: 1, failed: true },
            Ok(fresh) => {
                let rest = outcome(extractor, record_next(state, key), records.drop_first());
                Outcome {
                    state: rest.state,
                    forwarded: if fresh {
                        seq![records[0]] + rest.forwarded
                    } else {
                        rest.forwarded
                    },
                    read: rest.read + 1,
                    failed: rest.failed,
                }
            },
        }
    }
}

/// What is left of `input` once `count` records have been taken from it.
pub open spec fn unread_after(input: Seq<u8>, count: nat) -> Seq<u8>
    decreases count,
{
    if count == 0 {
        input
    } else {
        unread_after(after_first_record(input), (count - 1) as nat)
    }
}

/// A key extractor and a cache, which together decide record by record.
pub struct Deduplicator {
    filter: KeyExtractor,
    unique: UniquenessCache,
}

impl Deduplicator {
    /// How records become keys.
    pub closed spec fn extractor(&self) -> KeyExtractor {
        self.filter
    }

    /// What the cache holds.
    pub closed spec fn state(&self) -> CacheState {
        self.unique@
    }

    /// The cache is well formed.
    pub closed spec fn wf(&self) -> bool {
        self.unique.wf()
    }

    /// A filter that takes keys with `filter` and remembers them in
    /// `unique`.
    pub fn new(filter: KeyExtractor, unique: UniquenessCache) -> (made: Self)
        requires
            unique.wf(),
        ensures
            made.wf(),
            made.extractor() == filter,
            made.state() == unique@,
    {
        Deduplicator { filter, unique }
    }

    /// Decides on one record: `Ok(true)` if it is to be forwarded,
    /// `Ok(false)` if it is a duplicate or has no key. On the error the
    /// record must not be forwarded and the run is over.
    pub fn accept(&mut self, record: &[u8]) -> (forward: Result<bool, CapacityExceeded>)
        requires
            old(self).wf(),
        ensures
            final(self).wf(),
            final(self).extractor() == old(self).extractor(),
            forward == record_verdict(old(self).state(), old(self).extractor().key_of(record@)),
            final(self).state() == record_next(
                old(self).state(),
                old(self).extractor().key_of(record@),
            ),
    {
        match self.filter.extract(record) {
            Some(key) => self.unique.observe(key),
            None => Ok(false),
        }
    }

    /// Runs over the records that `reader` still has and appends to
    /// `output` those that are to be forwarded. The run ends at the end of
    /// the input, or with the error at the first record that the cache
    /// refuses.
    pub fn run(&mut self, reader: &mut StdinReader, output: &mut Vec<Vec<u8>>) -> (end: Result<
        (),
        CapacityExceeded,
    >)
        requires
            old(self).wf(),
            old(reader).wf(),
        ensures
            final(self).wf(),
            final(reader).wf(),
            final(self).extractor() == old(self).extractor(),
            ({
                let o = outcome(
                    old(self).extractor(),
                    old(self).state(),
                    records(old(reader).remaining()),
                );
                &&& end is Err <==> o.failed
                &&& final(self).state() == o.state
                &&& final(output).deep_view() == old(output).deep_view() + o.forwarded
                &&& final(reader).remaining() == unread_after(old(reader).remaining(), o.read)
            }),
    {
        let ghost extractor = self.extractor();
        let ghost total = outcome(extractor, self.state(), records(reader.remaining()));
        let ghost input = reader.remaining();
        let ghost before = output.deep_view();
        let ghost done: Seq<Seq<u8>> = Seq::empty();
        let ghost count: nat = 0;
        assert(output.deep_view() =~= before + done);
        loop
            invariant
                self.wf(),
                reader.wf(),
                extractor == old(self).extractor(),
                input == old(reader).remaining(),
                before == old(output).deep_view(),
                total == outcome(extractor, old(self).state(), records(input)),
                self.extractor() == extractor,
                output.deep_view() == before + done,
                reader.remaining() == unread_after(input, count),
                ({
                    let rest = outcome(extractor, self.state(), records(reader.remaining()));
                    &&& total.state == rest.state
                    &&& total.failed == rest.failed
                    &&& total.forwarded == done + rest.forwarded
                    &&& total.read == count + rest.read
                }),
            decreases reader.remaining().len(),
        {
            let ghost unread = reader.remaining();
            proof {
                crate::reader::lemma_record_len(unread);
                lemma_unread_one_more(input, count);
            }
            let line: Vec<u8> = match reader.next_line() {
                Some(bytes) => bytes.clone(),
                None => {
                    assert(done + Seq::<Seq<u8>>::empty() =~= done);
                    return Ok(());
                },
            };
            assert(line@ =~= first_record(unread));
            assert(records(unread).drop_first() =~= records(after_first_record(unread)));
            proof {
                count = count + 1;
            }
            match self.accept(line.as_slice()) {
                Err(e) => {
                    assert(done + Seq::<Seq<u8>>::empty() =~= done);
                    return Err(e);
                },
                Ok(fresh) => {
                    if fresh {
                        let ghost rest = outcome(
                            extractor,
                            self.state(),
                            records(reader.remaining()),
                        );
                        assert(done + (seq![line@] + rest.forwarded) =~= done.push(line@)
                            + rest.forwarded);
                        let ghost bytes = line@;
                        assert(line.deep_view() =~= bytes);
                        output.push(line);
                        assert(output.deep_view() =~= (before + done).push(bytes));
                        proof {
                            done = done.push(bytes);
                        }
                        assert(output.deep_view() =~= before + done);
                    }
                },
            }
        }
    }
}

/// Taking one record more leaves what follows the next record.
pub proof fn lemma_unread_one_more(input: Seq<u8>, count: nat)
    ensures
        unread_after(input, count + 1) == after_first_record(unread_after(input, count)),
    decreases count,
{
    if count > 0 {
        lemma_unread_one_more(after_first_record(input), (count - 1) as nat);
    } else {
        assert(unread_after(input, 1) == unread_after(after_first_record(input), 0));
    }
}

} // verus!
