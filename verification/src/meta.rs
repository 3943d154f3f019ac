use crate::error::GbamError;
use crate::fields::{
    field_item_size, lemma_names_distinct, var_size_field_to_index, Fields, FIELDS_NUM,
};
use vstd::prelude::*;

verus! {

/// How the blocks of a field are compressed.
#[derive(Clone, Copy, Debug, PartialEq, Eq, Structural)]
pub enum Codecs {
    Gzip,
    Lz4,
}

impl Codecs {
    /// The codec's tag as it is written in a container's metadata.
    pub open spec fn spec_tag(self) -> Seq<char> {
        match self {
            Codecs::Gzip => "Gzip"@,
            Codecs::Lz4 => "Lz4"@,
        }
    }

    /// The codec's tag as it is written in a container's metadata.
    pub fn tag(&self) -> (s: &'static str)
        ensures
            s@ == self.spec_tag(),
    {
        match self {
            Codecs::Gzip => "Gzip",
            Codecs::Lz4 => "Lz4",
        }
    }

    /// The codec that a tag in a container's metadata stands for; `None`
    /// for a tag that no codec has.
    pub fn from_tag(tag: &str) -> (r: Option<Codecs>)
        ensures
            match r {
                Some(codec) => tag@ == codec.spec_tag(),
                None => forall|c: Codecs| tag@ != c.spec_tag(),
            },
    {
        let wanted = String::from_str(tag);
        if wanted == String::from_str("Gzip") {
            Some(Codecs::Gzip)
        } else if wanted == String::from_str("Lz4") {
            Some(Codecs::Lz4)
        } else {
            None
        }
    }
}

/// The two codecs have different tags.
pub proof fn lemma_tags_distinct()
    ensures
        Codecs::Gzip.spec_tag() != Codecs::Lz4.spec_tag(),
{
    reveal_strlit("Gzip");
    reveal_strlit("Lz4");
    assert("Gzip"@.len() != "Lz4"@.len());
}

/// Where a block starts in the file and how many items it holds.
#[derive(Clone, Copy, Debug, PartialEq, Eq, Structural)]
pub struct BlockMeta {
    pub seekpos: u64,
    pub numitems: u32,
}

/// What a container records about one field: the codec, the item width of a
/// fixed-width field, and for each block its place, item count and
/// compressed length.
#[derive(Debug)]
pub struct FieldMeta {
    pub item_size: Option<u32>,
    pub blocks_sizes: Vec<u32>,
    pub codec: Codecs,
    pub blocks: Vec<BlockMeta>,
}

/// Number of items in the first `n` blocks of a list.
pub open spec fn items_before(blocks: Seq<BlockMeta>, n: int) -> int
    decreases n,
{
    if n <= 0 {
        0
    } else {
        items_before(blocks, n - 1) + blocks[n - 1].numitems
    }
}

/// Number of items in all blocks of a list.
pub open spec fn total_items(blocks: Seq<BlockMeta>) -> int {
    items_before(blocks, blocks.len() as int)
}

/// Two block lists are aligned: they have as many blocks, and each block of
/// one holds as many items as the block at its place in the other.
pub open spec fn aligned(a: Seq<BlockMeta>, b: Seq<BlockMeta>) -> bool {
    &&& a.len() == b.len()
    &&& forall|i: int| 0 <= i < a.len() ==> (#[trigger] a[i]).numitems == (#[trigger] b[i]).numitems
}

/// Aligned block lists count the same items up to every block.
pub proof fn lemma_aligned_items_before(a: Seq<BlockMeta>, b: Seq<BlockMeta>, n: int)
    requires
        aligned(a, b),
        n <= a.len(),
    ensures
        items_before(a, n) == items_before(b, n),
    decreases n,
{
    if n > 0 {
        lemma_aligned_items_before(a, b, n - 1);
    }
}

impl FieldMeta {
    /// Metadata of a field with no blocks yet.
    pub fn new(field: &Fields, codec: Codecs) -> (m: Self)
        ensures
            m.item_size is Some <==> field.item_size() is Some,
            m.item_size is Some ==> m.item_size->0 == field.item_size()->0,
            m.blocks_sizes@ == Seq::<u32>::empty(),
            m.codec == codec,
            m.blocks@ == Seq::<BlockMeta>::empty(),
    {
        FieldMeta {
            item_size: match field_item_size(field) {
                Some(v) => Some(v as u32),
                None => None,
            },
            blocks_sizes: Vec::new(),
            codec,
            blocks: Vec::new(),
        }
    }

    /// The metadata fits the field: it records the field's item width, one
    /// compressed length per block, and no empty block.
    pub open spec fn fits(self, field: Fields) -> bool {
        &&& self.item_size is Some <==> field.item_size() is Some
        &&& self.item_size is Some ==> self.item_size->0 == field.item_size()->0
        &&& self.blocks_sizes@.len() == self.blocks@.len()
        &&& forall|b: int| 0 <= b < self.blocks@.len() ==> (#[trigger] self.blocks@[b]).numitems > 0
    }
}

/// The table from field to its metadata, for the fields that a container
/// holds. It has one slot per field of the catalog, in catalog order.
#[derive(Debug)]
pub struct FieldMetaMap {
    pub slots: Vec<Option<FieldMeta>>,
}

impl FieldMetaMap {
    /// The table has a slot for every field of the catalog.
    pub open spec fn wf(self) -> bool {
        self.slots@.len() == FIELDS_NUM
    }

    /// The container holds the field.
    pub open spec fn contains(self, field: Fields) -> bool {
        self.slots@[field.ordinal() as int] is Some
    }

    /// The metadata of a field that the container holds.
    pub open spec fn meta_of(self, field: Fields) -> FieldMeta {
        self.slots@[field.ordinal() as int]->0
    }

    /// A table that holds no field.
    pub fn new() -> (m: Self)
        ensures
            m.wf(),
            forall|f: Fields| !m.contains(f),
    {
        let mut slots: Vec<Option<FieldMeta>> = Vec::new();
        let mut i: usize = 0;
        while i < FIELDS_NUM
            invariant
                i <= FIELDS_NUM,
                slots@.len() == i,
                forall|j: int| 0 <= j < i ==> slots@[j] is None,
            decreases FIELDS_NUM - i,
        {
            slots.push(None);
            i += 1;
        }
        FieldMetaMap { slots }
    }

    /// Records `meta` for `field`, in place of what was recorded before.
    pub fn insert(&mut self, field: Fields, meta: FieldMeta)
        requires
            old(self).wf(),
        ensures
            final(self).wf(),
            final(self).contains(field),
            final(self).meta_of(field) == meta,
            forall|g: Fields|
                g != field ==> final(self).contains(g) == old(self).contains(g)
                    && final(self).meta_of(g) == old(self).meta_of(g),
    {
        let i = field.index();
        self.slots[i] = Some(meta);
    }

    /// The metadata recorded for `field`, if the container holds it.
    pub fn get(&self, field: &Fields) -> (r: Option<&FieldMeta>)
        requires
            self.wf(),
        ensures
            r is Some <==> self.contains(*field),
            r is Some ==> *r->0 == self.meta_of(*field),
    {
        self.slots[field.index()].as_ref()
    }
}

/// The metadata of a container: for each field it holds, the codec and the
/// list of blocks.
#[derive(Debug)]
pub struct FileMeta {
    pub field_to_meta: FieldMetaMap,
}

impl FileMeta {
    /// The table has a slot for every field of the catalog.
    pub open spec fn wf(self) -> bool {
        self.field_to_meta.wf()
    }

    /// The container holds the field.
    pub open spec fn contains(self, field: Fields) -> bool {
        self.field_to_meta.contains(field)
    }

    /// The metadata of a field that the container holds.
    pub open spec fn meta_of(self, field: Fields) -> FieldMeta {
        self.field_to_meta.meta_of(field)
    }

    /// The block list of a field that the container holds.
    pub open spec fn blocks_of(self, field: Fields) -> Seq<BlockMeta> {
        self.meta_of(field).blocks@
    }

    /// Metadata that holds every field of the catalog, each with the given
    /// codec and no blocks.
    pub fn new(codec: Codecs) -> (m: Self)
        ensures
            m.wf(),
            forall|f: Fields|
                #![trigger m.contains(f)]
                #![trigger m.meta_of(f)]
                m.contains(f) && m.meta_of(f).codec == codec && m.meta_of(f).fits(f)
                    && m.meta_of(f).blocks@.len() == 0,
    {
        let mut map = FieldMetaMap::new();
        let mut i: usize = 0;
        while i < FIELDS_NUM
            invariant
                i <= FIELDS_NUM,
                map.wf(),
                forall|f: Fields|
                    #![trigger f.ordinal()]
                    f.ordinal() < i ==> map.contains(f) && map.meta_of(f).codec == codec
                        && map.meta_of(f).fits(f) && map.meta_of(f).blocks@.len() == 0,
            decreases FIELDS_NUM - i,
        {
            match Fields::from_index(i) {
                Some(field) => {
                    map.insert(field, FieldMeta::new(&field, codec));
                },
                None => {},
            }
            i += 1;
        }
        assert forall|f: Fields| #![trigger f.ordinal()] f.ordinal() < FIELDS_NUM by {}
        FileMeta { field_to_meta: map }
    }

    /// Whether the container holds the field.
    pub fn has_field(&self, field: &Fields) -> (r: bool)
        requires
            self.wf(),
        ensures
            r == self.contains(*field),
    {
        self.field_to_meta.get(field).is_some()
    }

    /// The block list of a field, to append blocks to.
    pub fn get_blocks(&mut self, field: &Fields) -> (r: &mut Vec<BlockMeta>)
        requires
            old(self).wf(),
            old(self).contains(*field),
        ensures
            *r == old(self).meta_of(*field).blocks,
            final(self).wf(),
            final(self).contains(*field),
            final(self).meta_of(*field).blocks == *final(r),
            final(self).meta_of(*field).blocks_sizes == old(self).meta_of(*field).blocks_sizes,
            final(self).meta_of(*field).codec == old(self).meta_of(*field).codec,
            final(self).meta_of(*field).item_size == old(self).meta_of(*field).item_size,
            forall|g: Fields|
                g != *field ==> final(self).contains(g) == old(self).contains(g)
                    && final(self).meta_of(g) == old(self).meta_of(g),
    {
        let i = field.index();
        match &mut self.field_to_meta.slots[i] {
            Some(m) => &mut m.blocks,
            None => unreached(),
        }
    }

    /// The block list of a field.
    pub fn view_blocks(&self, field: &Fields) -> (r: &Vec<BlockMeta>)
        requires
            self.wf(),
            self.contains(*field),
        ensures
            *r == self.meta_of(*field).blocks,
    {
        match &self.field_to_meta.slots[field.index()] {
            Some(m) => &m.blocks,
            None => unreached(),
        }
    }

    /// The list of compressed block lengths of a field.
    pub fn view_blocks_sizes(&self, field: &Fields) -> (r: &Vec<u32>)
        requires
            self.wf(),
            self.contains(*field),
        ensures
            *r == self.meta_of(*field).blocks_sizes,
    {
        match &self.field_to_meta.slots[field.index()] {
            Some(m) => &m.blocks_sizes,
            None => unreached(),
        }
    }

    /// The item width recorded for a field; `None` for a variable-width one.
    pub fn get_field_size(&self, field: &Fields) -> (r: &Option<u32>)
        requires
            self.wf(),
            self.contains(*field),
        ensures
            *r == self.meta_of(*field).item_size,
    {
        match &self.field_to_meta.slots[field.index()] {
            Some(m) => &m.item_size,
            None => unreached(),
        }
    }

    /// The codec of a field's blocks.
    pub fn get_field_codec(&self, field: &Fields) -> (r: &Codecs)
        requires
            self.wf(),
            self.contains(*field),
        ensures
            *r == self.meta_of(*field).codec,
    {
        match &self.field_to_meta.slots[field.index()] {
            Some(m) => &m.codec,
            None => unreached(),
        }
    }

    /// The list of compressed block lengths of a field, to append to.
    pub fn get_blocks_sizes(&mut self, field: &Fields) -> (r: &mut Vec<u32>)
        requires
            old(self).wf(),
            old(self).contains(*field),
        ensures
            *r == old(self).meta_of(*field).blocks_sizes,
            final(self).wf(),
            final(self).contains(*field),
            final(self).meta_of(*field).blocks_sizes == *final(r),
            final(self).meta_of(*field).blocks == old(self).meta_of(*field).blocks,
            final(self).meta_of(*field).codec == old(self).meta_of(*field).codec,
            final(self).meta_of(*field).item_size == old(self).meta_of(*field).item_size,
            forall|g: Fields|
                g != *field ==> final(self).contains(g) == old(self).contains(g)
                    && final(self).meta_of(g) == old(self).meta_of(g),
    {
        let i = field.index();
        match &mut self.field_to_meta.slots[i] {
            Some(m) => &mut m.blocks_sizes,
            None => unreached(),
        }
    }

    /// Appends the compressed length of a field's next block. A length is
    /// stored in 32 bits, so the block is shorter than 4 GiB.
    pub fn push_block_size(&mut self, field: &Fields, size: usize)
        requires
            old(self).wf(),
            old(self).contains(*field),
            size <= u32::MAX,
        ensures
            final(self).wf(),
            final(self).contains(*field),
            final(self).meta_of(*field).blocks_sizes@ == old(self).meta_of(
                *field,
            ).blocks_sizes@.push(size as u32),
            final(self).meta_of(*field).blocks == old(self).meta_of(*field).blocks,
            final(self).meta_of(*field).codec == old(self).meta_of(*field).codec,
            final(self).meta_of(*field).item_size == old(self).meta_of(*field).item_size,
            forall|g: Fields|
                g != *field ==> final(self).contains(g) == old(self).contains(g)
                    && final(self).meta_of(g) == old(self).meta_of(g),
    {
        let sizes = self.get_blocks_sizes(field);
        sizes.push(size as u32);
    }
}

/// Counts the items of a block list.
pub fn count_items(blocks: &Vec<BlockMeta>) -> (n: u128)
    ensures
        n == total_items(blocks@),
{
    let mut n: u128 = 0;
    let mut b: usize = 0;
    while b < blocks.len()
        invariant
            b <= blocks@.len(),
            n == items_before(blocks@, b as int),
            n <= b * 0xffff_ffff,
        decreases blocks@.len() - b,
    {
        n = n + blocks[b].numitems as u128;
        b += 1;
    }
    n
}

/// Whether two block lists are aligned.
pub fn blocks_aligned(a: &Vec<BlockMeta>, b: &Vec<BlockMeta>) -> (r: bool)
    ensures
        r == aligned(a@, b@),
{
    if a.len() != b.len() {
        return false;
    }
    let mut i: usize = 0;
    while i < a.len()
        invariant
            i <= a@.len(),
            a@.len() == b@.len(),
            forall|j: int| 0 <= j < i ==> (#[trigger] a@[j]).numitems == (#[trigger] b@[j]).numitems,
        decreases a@.len() - i,
    {
        if a[i].numitems != b[i].numitems {
            return false;
        }
        i += 1;
    }
    true
}

impl FieldMeta {
    /// Whether the metadata fits the field.
    pub fn check_fits(&self, field: &Fields) -> (r: bool)
        ensures
            r == self.fits(*field),
    {
        let width_ok = match (self.item_size, field_item_size(field)) {
            (Some(have), Some(want)) => have as usize == want,
            (None, None) => true,
            _ => false,
        };
        if !width_ok || self.blocks_sizes.len() != self.blocks.len() {
            return false;
        }
        let mut b: usize = 0;
        while b < self.blocks.len()
            invariant
                b <= self.blocks@.len(),
                forall|j: int| 0 <= j < b ==> (#[trigger] self.blocks@[j]).numitems > 0,
            decreases self.blocks@.len() - b,
        {
            if self.blocks[b].numitems == 0 {
                return false;
            }
            b += 1;
        }
        true
    }
}

impl FileMeta {
    /// The metadata describes one set of records: every field's metadata
    /// fits the field, all fields hold the same number of items, and every
    /// variable-width field comes with its offset column, block for block.
    pub open spec fn consistent(self) -> bool {
        &&& self.wf()
        &&& forall|f: Fields| #[trigger] self.contains(f) ==> self.meta_of(f).fits(f)
        &&& forall|f: Fields, g: Fields|
            #[trigger] self.contains(f) && #[trigger] self.contains(g) ==> total_items(
                self.blocks_of(f),
            ) == total_items(self.blocks_of(g))
        &&& forall|v: Fields|
            #[trigger] self.contains(v) && v.is_variable() ==> self.contains(v.index_field()->0)
                && aligned(self.blocks_of(v), self.blocks_of(v.index_field()->0))
    }

    /// The number of records of the container: the item count of any field
    /// it holds, zero where it holds none.
    pub open spec fn record_count(self) -> int {
        if exists|f: Fields| self.contains(f) {
            total_items(self.blocks_of(choose|f: Fields| self.contains(f)))
        } else {
            0
        }
    }

    /// Whether the metadata is consistent.
    pub fn is_consistent(&self) -> (r: bool)
        ensures
            r == self.consistent(),
    {
        if self.field_to_meta.slots.len() != FIELDS_NUM {
            return false;
        }
        let mut count: Option<u128> = None;
        let ghost mut witness: Fields = Fields::RefID;
        let mut i: usize = 0;
        while i < FIELDS_NUM
            invariant
                i <= FIELDS_NUM,
                self.wf(),
                count is Some ==> self.contains(witness) && total_items(self.blocks_of(witness))
                    == count->0,
                forall|f: Fields|
                    #![trigger self.contains(f)]
                    f.ordinal() < i && self.contains(f) ==> {
                        &&& self.meta_of(f).fits(f)
                        &&& count is Some
                        &&& count->0 == total_items(self.blocks_of(f))
                        &&& f.is_variable() ==> self.contains(f.index_field()->0) && aligned(
                            self.blocks_of(f),
                            self.blocks_of(f.index_field()->0),
                        )
                    },
            decreases FIELDS_NUM - i,
        {
            let field = match Fields::from_index(i) {
                Some(field) => field,
                None => {
                    return false;
                },
            };
            match self.field_to_meta.get(&field) {
                None => {},
                Some(fm) => {
                    assert(self.contains(field) && self.meta_of(field) == *fm);
                    if !fm.check_fits(&field) {
                        return false;
                    }
                    let n = count_items(&fm.blocks);
                    match count {
                        Some(c) => {
                            if c != n {
                                return false;
                            }
                        },
                        None => {
                            count = Some(n);
                            proof {
                                witness = field;
                            }
                        },
                    }
                    match field_item_size(&field) {
                        Some(_) => {},
                        None => {
                            let index = var_size_field_to_index(&field);
                            match self.field_to_meta.get(&index) {
                                None => {
                                    return false;
                                },
                                Some(im) => {
                                    if !blocks_aligned(&fm.blocks, &im.blocks) {
                                        return false;
                                    }
                                },
                            }
                        },
                    }
                },
            }
            i += 1;
        }
        assert forall|f: Fields| #![trigger f.ordinal()] f.ordinal() < FIELDS_NUM by {}
        true
    }

    /// The number of records of a consistent container.
    pub fn count_records(&self) -> (n: u128)
        requires
            self.consistent(),
        ensures
            n == self.record_count(),
    {
        let mut i: usize = 0;
        while i < FIELDS_NUM
            invariant
                i <= FIELDS_NUM,
                self.consistent(),
                forall|f: Fields| #![trigger self.contains(f)] f.ordinal() < i ==> !self.contains(f),
            decreases FIELDS_NUM - i,
        {
            match Fields::from_index(i) {
                Some(field) => {
                    match self.field_to_meta.get(&field) {
                        Some(fm) => {
                            assert(self.contains(field));
                            return count_items(&fm.blocks);
                        },
                        None => {},
                    }
                },
                None => {},
            }
            i += 1;
        }
        0
    }
}

/// In a consistent container all fields hold the same number of items, the
/// container's record count.
pub proof fn lemma_fields_agree(meta: FileMeta, f: Fields, g: Fields)
    requires
        meta.consistent(),
        meta.contains(f),
        meta.contains(g),
    ensures
        total_items(meta.blocks_of(f)) == total_items(meta.blocks_of(g)),
        total_items(meta.blocks_of(f)) == meta.record_count(),
{
    let c = choose|c: Fields| meta.contains(c);
    assert(meta.contains(c));
}

/// In a consistent container every block of a variable-width field holds
/// as many items as the block at its place in the field's offset column.
pub proof fn lemma_index_blocks_match(meta: FileMeta, v: Fields, b: int)
    requires
        meta.consistent(),
        meta.contains(v),
        v.is_variable(),
        0 <= b < meta.blocks_of(v).len(),
    ensures
        meta.contains(v.index_field()->0),
        b < meta.blocks_of(v.index_field()->0).len(),
        meta.blocks_of(v)[b].numitems == meta.blocks_of(v.index_field()->0)[b].numitems,
{
}

/// One entry of a metadata document as it is read: the name of a field,
/// and what the document records about it, the codec by its tag.
#[derive(Debug)]
pub struct FieldEntry {
    pub name: String,
    pub item_size: Option<u32>,
    pub blocks_sizes: Vec<u32>,
    pub codec: String,
    pub blocks: Vec<BlockMeta>,
}

impl FieldEntry {
    /// The entry names a field of the catalog and a codec.
    pub open spec fn known(self) -> bool {
        &&& exists|f: Fields| self.name@ == f.spec_name()
        &&& exists|c: Codecs| self.codec@ == c.spec_tag()
    }

    /// The metadata is what the entry records.
    pub open spec fn recorded_as(self, meta: FieldMeta) -> bool {
        &&& meta.item_size == self.item_size
        &&& meta.blocks_sizes@ == self.blocks_sizes@
        &&& meta.blocks@ == self.blocks@
        &&& meta.codec.spec_tag() == self.codec@
    }
}

/// The place of the last of the first `n` entries that names the field.
pub open spec fn last_named(entries: Seq<FieldEntry>, field: Fields, n: int) -> Option<int>
    decreases n,
{
    if n <= 0 {
        None
    } else if entries[n - 1].name@ == field.spec_name() {
        Some(n - 1)
    } else {
        last_named(entries, field, n - 1)
    }
}

/// The last entry that names a field names it, and no entry behind it does.
pub proof fn lemma_last_named(entries: Seq<FieldEntry>, field: Fields, n: int)
    requires
        0 <= n <= entries.len(),
    ensures
        match last_named(entries, field, n) {
            Some(i) => 0 <= i < n && entries[i].name@ == field.spec_name() && forall|j: int|
                i < j < n ==> (#[trigger] entries[j]).name@ != field.spec_name(),
            None => forall|j: int| 0 <= j < n ==> (#[trigger] entries[j]).name@ != field.spec_name(),
        },
    decreases n,
{
    if n > 0 && entries[n - 1].name@ != field.spec_name() {
        lemma_last_named(entries, field, n - 1);
    }
}

impl FileMeta {
    /// The metadata that the entries of a document spell: each field has
    /// what the last entry with its name records. The metadata is malformed
    /// where an entry names no field of the catalog or no codec.
    pub fn from_entries(entries: Vec<FieldEntry>) -> (r: Result<FileMeta, GbamError>)
        ensures
            r is Ok <==> forall|i: int| 0 <= i < entries@.len() ==> (#[trigger] entries@[i]).known(),
            r is Err ==> r->Err_0 == GbamError::MetadataMalformed,
            r is Ok ==> r->Ok_0.wf() && forall|f: Fields|
                match #[trigger] last_named(entries@, f, entries@.len() as int) {
                    Some(i) => r->Ok_0.contains(f) && entries@[i].recorded_as(r->Ok_0.meta_of(f)),
                    None => !r->Ok_0.contains(f),
                },
    {
        let ghost all = entries@;
        let ghost n = all.len() as int;
        let mut rest = entries;
        let mut map = FieldMetaMap::new();
        proof {
            assert forall|f: Fields|
                match #[trigger] last_named(all, f, n) {
                    Some(i) => 0 <= i < n,
                    None => true,
                } by {
                lemma_last_named(all, f, n);
            }
        }
        while rest.len() > 0
            invariant
                all == entries@,
                n == all.len(),
                rest@.len() <= n,
                rest@ == all.subrange(0, rest@.len() as int),
                map.wf(),
                forall|j: int| rest@.len() <= j < n ==> (#[trigger] all[j]).known(),
                forall|f: Fields|
                    match #[trigger] last_named(all, f, n) {
                        Some(i) => 0 <= i < n && if i >= rest@.len() {
                            map.contains(f) && all[i].recorded_as(map.meta_of(f))
                        } else {
                            !map.contains(f)
                        },
                        None => !map.contains(f),
                    },
            decreases rest@.len(),
        {
            let ghost k = rest@.len() - 1;
            let entry = match rest.pop() {
                Some(entry) => entry,
                None => unreached(),
            };
            assert(entry == all[k]);
            let field = match Fields::from_name(entry.name.as_str()) {
                Some(field) => field,
                None => {
                    assert(!all[k].known());
                    return Err(GbamError::MetadataMalformed);
                },
            };
            let codec = match Codecs::from_tag(entry.codec.as_str()) {
                Some(codec) => codec,
                None => {
                    assert(!all[k].known());
                    return Err(GbamError::MetadataMalformed);
                },
            };
            let taken = map.get(&field).is_some();
            if !taken {
                map.insert(
                    field,
                    FieldMeta {
                        item_size: entry.item_size,
                        blocks_sizes: entry.blocks_sizes,
                        codec,
                        blocks: entry.blocks,
                    },
                );
            }
            proof {
                assert(all[k].known());
                assert forall|f: Fields|
                    match #[trigger] last_named(all, f, n) {
                        Some(i) => 0 <= i < n && if i >= k {
                            map.contains(f) && all[i].recorded_as(map.meta_of(f))
                        } else {
                            !map.contains(f)
                        },
                        None => !map.contains(f),
                    } by {
                    lemma_last_named(all, f, n);
                    if f != field {
                        lemma_names_distinct(f, field);
                    }
                }
            }
        }
        assert(rest@.len() == 0);
        Ok(FileMeta { field_to_meta: map })
    }
}

} // verus!
