use vstd::prelude::*;

verus! {

/// Number of fields in the catalog.
pub const FIELDS_NUM: usize = 18;

/// Every column a container can hold: the attributes of an alignment record
/// and the two synthetic offset columns that index raw sequence and raw tags.
#[derive(Clone, Copy, Debug, PartialEq, Eq, Structural, Hash)]
pub enum Fields {
    RefID,
    Pos,
    LName,
    Mapq,
    Bin,
    NCigar,
    Flags,
    SequenceLength,
    NextRefID,
    NextPos,
    TemplateLength,
    RawSeqLen,
    RawTagsLen,
    ReadName,
    RawCigar,
    RawSequence,
    RawQual,
    RawTags,
}

/// Whether the items of a field all have one width or each its own.
#[derive(Clone, Copy, Debug, PartialEq, Eq, Structural)]
pub enum FieldType {
    FixedSized,
    VariableSized,
}

impl Fields {
    /// Position of the field in the catalog, in `0..FIELDS_NUM`.
    pub open spec fn ordinal(self) -> nat {
        match self {
            Fields::RefID => 0,
            Fields::Pos => 1,
            Fields::LName => 2,
            Fields::Mapq => 3,
            Fields::Bin => 4,
            Fields::NCigar => 5,
            Fields::Flags => 6,
            Fields::SequenceLength => 7,
            Fields::NextRefID => 8,
            Fields::NextPos => 9,
            Fields::TemplateLength => 10,
            Fields::RawSeqLen => 11,
            Fields::RawTagsLen => 12,
            Fields::ReadName => 13,
            Fields::RawCigar => 14,
            Fields::RawSequence => 15,
            Fields::RawQual => 16,
            Fields::RawTags => 17,
        }
    }

    /// The field at a catalog position; positions past the end give `RawTags`.
    pub open spec fn at(i: nat) -> Fields {
        if i == 0 {
            Fields::RefID
        } else if i == 1 {
            Fields::Pos
        } else if i == 2 {
            Fields::LName
        } else if i == 3 {
            Fields::Mapq
        } else if i == 4 {
            Fields::Bin
        } else if i == 5 {
            Fields::NCigar
        } else if i == 6 {
            Fields::Flags
        } else if i == 7 {
            Fields::SequenceLength
        } else if i == 8 {
            Fields::NextRefID
        } else if i == 9 {
            Fields::NextPos
        } else if i == 10 {
            Fields::TemplateLength
        } else if i == 11 {
            Fields::RawSeqLen
        } else if i == 12 {
            Fields::RawTagsLen
        } else if i == 13 {
            Fields::ReadName
        } else if i == 14 {
            Fields::RawCigar
        } else if i == 15 {
            Fields::RawSequence
        } else if i == 16 {
            Fields::RawQual
        } else {
            Fields::RawTags
        }
    }

    /// Width in bytes of one item, for fixed-width fields.
    pub open spec fn item_size(self) -> Option<nat> {
        match self {
            Fields::RefID | Fields::Pos | Fields::NextRefID | Fields::NextPos
            | Fields::TemplateLength => Some(4),
            Fields::LName | Fields::NCigar | Fields::SequenceLength | Fields::RawSeqLen
            | Fields::RawTagsLen => Some(4),
            Fields::Bin | Fields::Flags => Some(2),
            Fields::Mapq => Some(1),
            Fields::ReadName | Fields::RawCigar | Fields::RawSequence | Fields::RawQual
            | Fields::RawTags => None,
        }
    }

    /// A field is variable-width exactly when it has no item width.
    pub open spec fn is_variable(self) -> bool {
        self.item_size() is None
    }

    /// The offset column paired with a variable-width field.
    pub open spec fn index_field(self) -> Option<Fields> {
        match self {
            Fields::ReadName => Some(Fields::LName),
            Fields::RawCigar => Some(Fields::NCigar),
            Fields::RawSequence => Some(Fields::RawSeqLen),
            Fields::RawQual => Some(Fields::SequenceLength),
            Fields::RawTags => Some(Fields::RawTagsLen),
            _ => None,
        }
    }

    /// The variable-width field whose items this offset column locates.
    pub open spec fn indexed_field(self) -> Option<Fields> {
        match self {
            Fields::LName => Some(Fields::ReadName),
            Fields::NCigar => Some(Fields::RawCigar),
            Fields::RawSeqLen => Some(Fields::RawSequence),
            Fields::SequenceLength => Some(Fields::RawQual),
            Fields::RawTagsLen => Some(Fields::RawTags),
            _ => None,
        }
    }

    /// The field's name as it is written in a container's metadata.
    pub open spec fn spec_name(self) -> Seq<char> {
        match self {
            Fields::RefID => "RefID"@,
            Fields::Pos => "Pos"@,
            Fields::LName => "LName"@,
            Fields::Mapq => "Mapq"@,
            Fields::Bin => "Bin"@,
            Fields::NCigar => "NCigar"@,
            Fields::Flags => "Flags"@,
            Fields::SequenceLength => "SequenceLength"@,
            Fields::NextRefID => "NextRefID"@,
            Fields::NextPos => "NextPos"@,
            Fields::TemplateLength => "TemplateLength"@,
            Fields::RawSeqLen => "RawSeqLen"@,
            Fields::RawTagsLen => "RawTagsLen"@,
            Fields::ReadName => "ReadName"@,
            Fields::RawCigar => "RawCigar"@,
            Fields::RawSequence => "RawSequence"@,
            Fields::RawQual => "RawQual"@,
            Fields::RawTags => "RawTags"@,
        }
    }

    /// Position of the field in the catalog.
    pub fn index(&self) -> (i: usize)
        ensures
            i == self.ordinal(),
            i < FIELDS_NUM,
            Fields::at(i as nat) == *self,
    {
        match self {
            Fields::RefID => 0,
            Fields::Pos => 1,
            Fields::LName => 2,
            Fields::Mapq => 3,
            Fields::Bin => 4,
            Fields::NCigar => 5,
            Fields::Flags => 6,
            Fields::SequenceLength => 7,
            Fields::NextRefID => 8,
            Fields::NextPos => 9,
            Fields::TemplateLength => 10,
            Fields::RawSeqLen => 11,
            Fields::RawTagsLen => 12,
            Fields::ReadName => 13,
            Fields::RawCigar => 14,
            Fields::RawSequence => 15,
            Fields::RawQual => 16,
            Fields::RawTags => 17,
        }
    }

    /// The field at a catalog position, if there is one.
    pub fn from_index(i: usize) -> (r: Option<Fields>)
        ensures
            i < FIELDS_NUM ==> r == Some(Fields::at(i as nat)),
            i < FIELDS_NUM ==> Fields::at(i as nat).ordinal() == i,
            i >= FIELDS_NUM ==> r is None,
    {
        match i {
            0 => Some(Fields::RefID),
            1 => Some(Fields::Pos),
            2 => Some(Fields::LName),
            3 => Some(Fields::Mapq),
            4 => Some(Fields::Bin),
            5 => Some(Fields::NCigar),
            6 => Some(Fields::Flags),
            7 => Some(Fields::SequenceLength),
            8 => Some(Fields::NextRefID),
            9 => Some(Fields::NextPos),
            10 => Some(Fields::TemplateLength),
            11 => Some(Fields::RawSeqLen),
            12 => Some(Fields::RawTagsLen),
            13 => Some(Fields::ReadName),
            14 => Some(Fields::RawCigar),
            15 => Some(Fields::RawSequence),
            16 => Some(Fields::RawQual),
            17 => Some(Fields::RawTags),
            _ => None,
        }
    }

    /// The field that a name in a container's metadata stands for; `None`
    /// for a name that no field has.
    pub fn from_name(name: &str) -> (r: Option<Fields>)
        ensures
            match r {
                Some(field) => name@ == field.spec_name(),
                None => forall|f: Fields| name@ != f.spec_name(),
            },
    {
        let wanted = String::from_str(name);
        let mut i: usize = 0;
        while i < FIELDS_NUM
            invariant
                i <= FIELDS_NUM,
                wanted@ == name@,
                forall|f: Fields| #![trigger f.ordinal()] f.ordinal() < i ==> name@ != f.spec_name(),
            decreases FIELDS_NUM - i,
        {
            match Fields::from_index(i) {
                Some(field) => {
                    if wanted == String::from_str(field.name()) {
                        return Some(field);
                    }
                },
                None => {},
            }
            i += 1;
        }
        assert forall|f: Fields| name@ != f.spec_name() by {
            assert(f.ordinal() < FIELDS_NUM);
        }
        None
    }

    /// The field's name as it is written in a container's metadata.
    pub fn name(&self) -> (s: &'static str)
        ensures
            s@ == self.spec_name(),
    {
        match self {
            Fields::RefID => "RefID",
            Fields::Pos => "Pos",
            Fields::LName => "LName",
            Fields::Mapq => "Mapq",
            Fields::Bin => "Bin",
            Fields::NCigar => "NCigar",
            Fields::Flags => "Flags",
            Fields::SequenceLength => "SequenceLength",
            Fields::NextRefID => "NextRefID",
            Fields::NextPos => "NextPos",
            Fields::TemplateLength => "TemplateLength",
            Fields::RawSeqLen => "RawSeqLen",
            Fields::RawTagsLen => "RawTagsLen",
            Fields::ReadName => "ReadName",
            Fields::RawCigar => "RawCigar",
            Fields::RawSequence => "RawSequence",
            Fields::RawQual => "RawQual",
            Fields::RawTags => "RawTags",
        }
    }
}

/// Whether a field is fixed-width or variable-width.
pub fn field_type(field: &Fields) -> (t: FieldType)
    ensures
        t == (if field.is_variable() {
            FieldType::VariableSized
        } else {
            FieldType::FixedSized
        }),
{
    match field {
        Fields::ReadName | Fields::RawCigar | Fields::RawSequence | Fields::RawQual
        | Fields::RawTags => FieldType::VariableSized,
        _ => FieldType::FixedSized,
    }
}

/// Width in bytes of one item of a fixed-width field; `None` for a
/// variable-width field.
pub fn field_item_size(field: &Fields) -> (r: Option<usize>)
    ensures
        r is Some <==> field.item_size() is Some,
        r is Some ==> r->0 == field.item_size()->0,
{
    match field {
        Fields::RefID | Fields::Pos | Fields::NextRefID | Fields::NextPos
        | Fields::TemplateLength => Some(4),
        Fields::LName | Fields::NCigar | Fields::SequenceLength | Fields::RawSeqLen
        | Fields::RawTagsLen => Some(4),
        Fields::Bin | Fields::Flags => Some(2),
        Fields::Mapq => Some(1),
        Fields::ReadName | Fields::RawCigar | Fields::RawSequence | Fields::RawQual
        | Fields::RawTags => None,
    }
}

/// The offset column that locates the items of a variable-width field.
pub fn var_size_field_to_index(field: &Fields) -> (r: Fields)
    requires
        field.is_variable(),
    ensures
        field.index_field() == Some(r),
        !r.is_variable(),
        r.item_size() == Some(4nat),
{
    match field {
        Fields::ReadName => Fields::LName,
        Fields::RawCigar => Fields::NCigar,
        Fields::RawSequence => Fields::RawSeqLen,
        Fields::RawQual => Fields::SequenceLength,
        _ => Fields::RawTagsLen,
    }
}

/// A variable-width field has an offset column, and that column is a
/// fixed-width field of four-byte items; a fixed-width field has none.
pub proof fn lemma_index_field_is_fixed(field: Fields)
    ensures
        field.is_variable() <==> field.index_field() is Some,
        field.index_field() is Some ==> field.index_field()->0.item_size() == Some(4nat),
{
}

/// Each offset column serves one variable-width field: `index_field` and
/// `indexed_field` undo each other.
pub proof fn lemma_index_pairing(field: Fields, index: Fields)
    ensures
        field.index_field() == Some(index) <==> index.indexed_field() == Some(field),
{
}

/// What tells the names of the fields apart: the length and three of the
/// letters.
pub open spec fn name_mark(name: Seq<char>) -> (nat, char, char, char) {
    (name.len(), name[0], name[1], name[2])
}

/// No two fields have the same name.
pub proof fn lemma_names_distinct(f: Fields, g: Fields)
    requires
        f != g,
    ensures
        f.spec_name() != g.spec_name(),
{
    reveal_strlit("RefID");
    reveal_strlit("Pos");
    reveal_strlit("LName");
    reveal_strlit("Mapq");
    reveal_strlit("Bin");
    reveal_strlit("NCigar");
    reveal_strlit("Flags");
    reveal_strlit("SequenceLength");
    reveal_strlit("NextRefID");
    reveal_strlit("NextPos");
    reveal_strlit("TemplateLength");
    reveal_strlit("RawSeqLen");
    reveal_strlit("RawTagsLen");
    reveal_strlit("ReadName");
    reveal_strlit("RawCigar");
    reveal_strlit("RawSequence");
    reveal_strlit("RawQual");
    reveal_strlit("RawTags");
    assert(name_mark(Fields::RefID.spec_name()) == (5nat, 'R', 'e', 'f'));
    assert(name_mark(Fields::Pos.spec_name()) == (3nat, 'P', 'o', 's'));
    assert(name_mark(Fields::LName.spec_name()) == (5nat, 'L', 'N', 'a'));
    assert(name_mark(Fields::Mapq.spec_name()) == (4nat, 'M', 'a', 'p'));
    assert(name_mark(Fields::Bin.spec_name()) == (3nat, 'B', 'i', 'n'));
    assert(name_mark(Fields::NCigar.spec_name()) == (6nat, 'N', 'C', 'i'));
    assert(name_mark(Fields::Flags.spec_name()) == (5nat, 'F', 'l', 'a'));
    assert(name_mark(Fields::SequenceLength.spec_name()) == (14nat, 'S', 'e', 'q'));
    assert(name_mark(Fields::NextRefID.spec_name()) == (9nat, 'N', 'e', 'x'));
    assert(name_mark(Fields::NextPos.spec_name()) == (7nat, 'N', 'e', 'x'));
    assert(name_mark(Fields::TemplateLength.spec_name()) == (14nat, 'T', 'e', 'm'));
    assert(name_mark(Fields::RawSeqLen.spec_name()) == (9nat, 'R', 'a', 'w'));
    assert(name_mark(Fields::RawTagsLen.spec_name()) == (10nat, 'R', 'a', 'w'));
    assert(name_mark(Fields::ReadName.spec_name()) == (8nat, 'R', 'e', 'a'));
    assert(name_mark(Fields::RawCigar.spec_name()) == (8nat, 'R', 'a', 'w'));
    assert(name_mark(Fields::RawSequence.spec_name()) == (11nat, 'R', 'a', 'w'));
    assert(name_mark(Fields::RawQual.spec_name()) == (7nat, 'R', 'a', 'w'));
    assert(name_mark(Fields::RawTags.spec_name()) == (7nat, 'R', 'a', 'w'));
    if (f == Fields::RawQual && g == Fields::RawTags) || (f == Fields::RawTags && g
        == Fields::RawQual) {
        assert("RawQual"@[3] != "RawTags"@[3]);
    }
}

/// Catalog positions and fields correspond one to one.
pub proof fn lemma_ordinal_round_trip(field: Fields, i: nat)
    ensures
        field.ordinal() < FIELDS_NUM,
        Fields::at(field.ordinal()) == field,
        i < FIELDS_NUM ==> Fields::at(i).ordinal() == i,
{
}

} // verus!
