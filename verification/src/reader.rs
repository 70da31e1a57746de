//! Splitting input into records.
//!
//! A record is a line with its newline; the last one may lack it. Nothing
//! is decoded: the input is bytes and so is each record.

use vstd::prelude::*;

verus! {

/// The length of the first record of `input`: up to and with the first
/// newline, or all of `input` where it has none.
pub open spec fn record_len(input: Seq<u8>) -> nat
    decreases input.len(),
{
    if input.len() == 0 {
        0
    } else if input[0] == 10u8 {
        1
    } else {
        1 + record_len(input.drop_first())
    }
}

/// The first record of `input`.
pub open spec fn first_record(input: Seq<u8>) -> Seq<u8> {
    input.take(record_len(input) as int)
}

/// What follows the first record of `input`.
pub open spec fn after_first_record(input: Seq<u8>) -> Seq<u8> {
    input.skip(record_len(input) as int)
}

/// The records of `input`, in order.
pub open spec fn records(input: Seq<u8>) -> Seq<Seq<u8>>
    decreases input.len(),
    via records_decreases
{
    if input.len() == 0 {
        Seq::empty()
    } else {
        seq![first_record(input)] + records(after_first_record(input))
    }
}

#[via_fn]
proof fn records_decreases(input: Seq<u8>) {
    if input.len() != 0 {
        lemma_record_len(input);
    }
}

/// The first record lies within the input, is not empty unless the input
/// is, holds no newline before its last byte, and ends in one unless it
/// ends the input.
pub proof fn lemma_record_len(input: Seq<u8>)
    ensures
        record_len(input) <= input.len(),
        input.len() > 0 ==> record_len(input) > 0,
        forall|i: int| 0 <= i < record_len(input) - 1 ==> input[i] != 10u8,
        record_len(input) < input.len() ==> input[record_len(input) - 1] == 10u8,
    decreases input.len(),
{
    if input.len() > 0 && input[0] != 10u8 {
        let rest = input.drop_first();
        lemma_record_len(rest);
        assert forall|i: int| 0 <= i < record_len(input) - 1 implies input[i] != 10u8 by {
            if i > 0 {
                assert(input[i] == rest[i - 1]);
            }
        }
        if record_len(input) < input.len() {
            assert(input[record_len(input) - 1] == rest[record_len(rest) - 1]);
        }
    }
}

/// A reader that hands out the records of its input one by one.
pub struct StdinReader {
    buffer: Vec<u8>,
    input: Vec<u8>,
    pos: usize,
}

impl StdinReader {
    /// The input that has not been handed out yet.
    pub closed spec fn remaining(&self) -> Seq<u8> {
        self.input@.skip(self.pos as int)
    }

    /// The reader has not read past its input.
    pub closed spec fn wf(&self) -> bool {
        self.pos <= self.input.len()
    }

    /// A reader at the start of `input`.
    pub fn new(input: Vec<u8>) -> (reader: Self)
        ensures
            reader.wf(),
            reader.remaining() == input@,
    {
        let reader = StdinReader { buffer: Vec::new(), input, pos: 0 };
        assert(reader.remaining() =~= input@);
        reader
    }

    /// The next record, or none at the end of the input.
    pub fn next_line(&mut self) -> (line: Option<&Vec<u8>>)
        requires
            old(self).wf(),
        ensures
            final(self).wf(),
            match line {
                Some(bytes) => old(self).remaining().len() > 0 && bytes@ == first_record(
                    old(self).remaining(),
                ),
                None => old(self).remaining().len() == 0,
            },
            final(self).remaining() == after_first_record(old(self).remaining()),
    {
        let ghost start = self.pos as int;
        let ghost rest = self.remaining();
        self.buffer.clear();
        assert(self.input@.subrange(start, start) =~= Seq::<u8>::empty());
        assert(self.input@.skip(start) =~= rest);
        while self.pos < self.input.len()
            invariant_except_break
                record_len(rest) == (self.pos - start) + record_len(
                    self.input@.skip(self.pos as int),
                ),
            invariant
                rest == self.input@.skip(start),
                self.input == old(self).input,
                0 <= start <= self.pos <= self.input.len(),
                self.buffer@ == self.input@.subrange(start, self.pos as int),
            ensures
                record_len(rest) == self.pos - start,
            decreases self.input.len() - self.pos,
        {
            let byte = self.input[self.pos];
            let ghost here = self.input@.skip(self.pos as int);
            assert(here[0] == byte);
            assert(here.drop_first() =~= self.input@.skip(self.pos + 1));
            self.buffer.push(byte);
            self.pos += 1;
            assert(self.buffer@ =~= self.input@.subrange(start, self.pos as int));
            if byte == 10u8 {
                break ;
            }
        }
        assert(self.buffer@ =~= first_record(rest));
        assert(self.remaining() =~= after_first_record(rest));
        if self.buffer.len() == 0 {
            None
        } else {
            Some(&self.buffer)
        }
    }
}

} // verus!
