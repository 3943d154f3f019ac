use crate::fields::{Fields, FIELDS_NUM};
use vstd::prelude::*;

verus! {

/// Selects the fields to read. A field that was set is a data field; the
/// offset column of a variable-width data field is active with it.
#[derive(Clone, Copy, Debug, PartialEq, Eq)]
pub struct ParsingTemplate {
    pub inner: [bool; FIELDS_NUM],
}

impl ParsingTemplate {
    /// The field was set: its values go into records.
    pub open spec fn is_data_field(self, field: Fields) -> bool {
        self.inner@[field.ordinal() as int]
    }

    /// The field's column is needed: the field was set, or it is the offset
    /// column of a variable-width field that was set.
    pub open spec fn is_active(self, field: Fields) -> bool {
        self.is_data_field(field) || (field.indexed_field() is Some && self.is_data_field(
            field.indexed_field()->0,
        ))
    }

    /// A template with no field set.
    pub fn new() -> (t: Self)
        ensures
            forall|f: Fields| !t.is_data_field(f),
    {
        ParsingTemplate { inner: [false; FIELDS_NUM] }
    }

    /// A template with every field set.
    pub fn new_with_all() -> (t: Self)
        ensures
            forall|f: Fields| t.is_data_field(f),
    {
        ParsingTemplate { inner: [true; FIELDS_NUM] }
    }

    /// Sets or unsets one field.
    pub fn set(&mut self, field: &Fields, val: bool)
        ensures
            forall|g: Fields|
                final(self).is_data_field(g) == (if g == *field {
                    val
                } else {
                    old(self).is_data_field(g)
                }),
    {
        let i = field.index();
        self.inner[i] = val;
    }

    /// Unsets every field.
    pub fn clear(&mut self)
        ensures
            forall|f: Fields| !final(self).is_data_field(f),
    {
        self.inner = [false; FIELDS_NUM];
    }

    /// Whether the field was set.
    pub fn check_if_data_field(&self, field: &Fields) -> (r: bool)
        ensures
            r == self.is_data_field(*field),
    {
        self.inner[field.index()]
    }

    /// Whether the field's column is needed.
    pub fn check_if_active(&self, field: &Fields) -> (r: bool)
        ensures
            r == self.is_active(*field),
    {
        if self.inner[field.index()] {
            return true;
        }
        match field {
            Fields::LName => self.inner[Fields::ReadName.index()],
            Fields::NCigar => self.inner[Fields::RawCigar.index()],
            Fields::RawSeqLen => self.inner[Fields::RawSequence.index()],
            Fields::SequenceLength => self.inner[Fields::RawQual.index()],
            Fields::RawTagsLen => self.inner[Fields::RawTags.index()],
            _ => false,
        }
    }

    /// The fields whose columns are needed, in catalog order.
    pub fn get_active_fields(&self) -> (r: Vec<Fields>)
        ensures
            forall|f: Fields| r@.contains(f) <==> self.is_active(f),
            forall|i: int, j: int|
                0 <= i < j < r@.len() ==> (#[trigger] r@[i]).ordinal() < (#[trigger] r@[j]).ordinal(),
    {
        let mut r: Vec<Fields> = Vec::new();
        let mut i: usize = 0;
        while i < FIELDS_NUM
            invariant
                i <= FIELDS_NUM,
                forall|f: Fields| r@.contains(f) <==> (self.is_active(f) && f.ordinal() < i),
                forall|a: int, b: int|
                    0 <= a < b < r@.len() ==> (#[trigger] r@[a]).ordinal() < (#[trigger] r@[b]).ordinal(),
                forall|a: int| 0 <= a < r@.len() ==> (#[trigger] r@[a]).ordinal() < i,
            decreases FIELDS_NUM - i,
        {
            match Fields::from_index(i) {
                Some(field) => {
                    if self.check_if_active(&field) {
                        let ghost before = r@;
                        r.push(field);
                        assert forall|f: Fields| r@.contains(f) <==> (self.is_active(f)
                            && f.ordinal() < i + 1) by {
                            if r@.contains(f) {
                                let k = choose|k: int| 0 <= k < r@.len() && r@[k] == f;
                                if k < before.len() {
                                    assert(before[k] == f);
                                    assert(before.contains(f));
                                }
                            }
                            if self.is_active(f) && f.ordinal() < i + 1 {
                                if f.ordinal() < i {
                                    assert(before.contains(f));
                                    let k = choose|k: int| 0 <= k < before.len() && before[k] == f;
                                    assert(r@[k] == f);
                                } else {
                                    assert(r@[before.len() as int] == f);
                                }
                            }
                        }
                    }
                },
                None => {},
            }
            i += 1;
        }
        r
    }

    /// The fields whose values go into records, in catalog order.
    pub fn get_active_data_fields(&self) -> (r: Vec<Fields>)
        ensures
            forall|f: Fields| r@.contains(f) <==> self.is_data_field(f),
            forall|i: int, j: int|
                0 <= i < j < r@.len() ==> (#[trigger] r@[i]).ordinal() < (#[trigger] r@[j]).ordinal(),
    {
        let mut r: Vec<Fields> = Vec::new();
        let mut i: usize = 0;
        while i < FIELDS_NUM
            invariant
                i <= FIELDS_NUM,
                forall|f: Fields| r@.contains(f) <==> (self.is_data_field(f) && f.ordinal() < i),
                forall|a: int, b: int|
                    0 <= a < b < r@.len() ==> (#[trigger] r@[a]).ordinal() < (#[trigger] r@[b]).ordinal(),
                forall|a: int| 0 <= a < r@.len() ==> (#[trigger] r@[a]).ordinal() < i,
            decreases FIELDS_NUM - i,
        {
            match Fields::from_index(i) {
                Some(field) => {
                    if self.inner[i] {
                        let ghost before = r@;
                        r.push(field);
                        assert forall|f: Fields| r@.contains(f) <==> (self.is_data_field(f)
                            && f.ordinal() < i + 1) by {
                            if r@.contains(f) {
                                let k = choose|k: int| 0 <= k < r@.len() && r@[k] == f;
                                if k < before.len() {
                                    assert(before[k] == f);
                                    assert(before.contains(f));
                                }
                            }
                            if self.is_data_field(f) && f.ordinal() < i + 1 {
                                if f.ordinal() < i {
                                    assert(before.contains(f));
                                    let k = choose|k: int| 0 <= k < before.len() && before[k] == f;
                                    assert(r@[k] == f);
                                } else {
                                    assert(r@[before.len() as int] == f);
                                }
                            }
                        }
                    }
                },
                None => {},
            }
            i += 1;
        }
        r
    }
}

/// The active fields are the data fields together with the offset columns
/// of the variable-width data fields, and nothing else.
pub proof fn lemma_active_fields(t: ParsingTemplate, f: Fields)
    ensures
        t.is_data_field(f) ==> t.is_active(f),
        t.is_data_field(f) && f.is_variable() ==> t.is_active(f.index_field()->0),
        t.is_active(f) && !t.is_data_field(f) ==> exists|v: Fields|
            t.is_data_field(v) && v.index_field() == Some(f),
{
    if t.is_active(f) && !t.is_data_field(f) {
        let v = f.indexed_field()->0;
        assert(t.is_data_field(v) && v.index_field() == Some(f));
    }
}

} // verus!
