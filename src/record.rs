//! A simple data-holding record with a text field and a sequence of bytes.
use vstd::prelude::*;
use crate::text::{decimal, push_decimal, views};

verus! {

/// What a `RustStruct` holds, as mathematical values.
pub struct RecordModel {
    pub data: Seq<char>,
    pub vector: Seq<u8>,
}

/// A record with a text value and a sequence of small unsigned integers.
#[derive(Clone, Debug, PartialEq, Eq)]
pub struct RustStruct {
    pub data: String,
    pub vector: Vec<u8>,
}

impl View for RustStruct {
    type V = RecordModel;

    open spec fn view(&self) -> RecordModel {
        RecordModel { data: self.data@, vector: self.vector@ }
    }
}

/// The record that `new` builds from a text and a sequence.
pub open spec fn new_model(data: Seq<char>, vector: Seq<u8>) -> RecordModel {
    RecordModel { data, vector }
}

/// The record `m` with `extension` appended to its sequence.
pub open spec fn extended(m: RecordModel, extension: Seq<u8>) -> RecordModel {
    RecordModel { data: m.data, vector: m.vector + extension }
}

/// The lines that show a record: its text, then each integer in decimal.
pub open spec fn shown_lines(m: RecordModel) -> Seq<Seq<char>> {
    seq![m.data] + m.vector.map_values(|b: u8| decimal(b as nat))
}

impl RustStruct {
    pub fn new(data: String, vector: Vec<u8>) -> (r: RustStruct)
        ensures
            r@ == new_model(data@, vector@),
    {
        RustStruct { data, vector }
    }

    /// The lines that show this record, in the order they are printed.
    pub fn printer(&self) -> (r: Vec<String>)
        ensures
            views(r@) == shown_lines(self@),
    {
        let mut lines: Vec<String> = Vec::new();
        lines.push(self.data.clone());
        let mut i: usize = 0;
        while i < self.vector.len()
            invariant
                i <= self.vector@.len(),
                views(lines@) == seq![self.data@] + self.vector@.take(i as int).map_values(
                    |b: u8| decimal(b as nat),
                ),
            decreases self.vector.len() - i,
        {
            let mut s = String::new();
            push_decimal(&mut s, self.vector[i] as u128);
            let ghost before = lines@;
            lines.push(s);
            proof {
                assert(views(lines@) =~= views(before).push(decimal(self.vector@[i as int] as nat)));
                assert(self.vector@.take(i + 1).map_values(|b: u8| decimal(b as nat))
                    =~= self.vector@.take(i as int).map_values(|b: u8| decimal(b as nat)).push(
                    decimal(self.vector@[i as int] as nat),
                ));
                assert(views(lines@) =~= seq![self.data@] + self.vector@.take(i + 1).map_values(
                    |b: u8| decimal(b as nat),
                ));
            }
            i = i + 1;
        }
        assert(self.vector@.take(i as int) == self.vector@);
        lines
    }

    /// Appends `extension` to the sequence, in order.
    pub fn extend_vector(&mut self, extension: Vec<u8>)
        ensures
            final(self)@ == extended(old(self)@, extension@),
    {
        let mut i: usize = 0;
        while i < extension.len()
            invariant
                i <= extension@.len(),
                self.data@ == old(self).data@,
                self.vector@ == old(self).vector@ + extension@.take(i as int),
            decreases extension.len() - i,
        {
            self.vector.push(extension[i]);
            proof {
                assert(self.vector@ =~= old(self).vector@ + extension@.take(i + 1));
            }
            i = i + 1;
        }
        assert(extension@.take(i as int) == extension@);
        assert(self.vector@ =~= old(self).vector@ + extension@);
    }
}

/// Building a record from a text and a sequence and then extending it leaves
/// the text as it was and the sequence equal to the original one followed by
/// the appended integers, in order.
pub proof fn lemma_new_then_extend(data: Seq<char>, vector: Seq<u8>, extension: Seq<u8>)
    ensures
        extended(new_model(data, vector), extension).data == data,
        extended(new_model(data, vector), extension).vector == vector + extension,
{
}

} // verus!
