//! Data types, fields and schemas.

use vstd::prelude::*;

verus! {

/// The type of a column. The engine computes with the named ones; any other is carried by the
/// name that the columnar format prints for it.
#[derive(Debug, PartialEq, Eq)]
pub enum DataType {
    Null,
    Boolean,
    Int32,
    Int64,
    UInt32,
    UInt64,
    Float32,
    Float64,
    Utf8,
    Other(String),
}

pub enum DataTypeView {
    Null,
    Boolean,
    Int32,
    Int64,
    UInt32,
    UInt64,
    Float32,
    Float64,
    Utf8,
    Other(Seq<char>),
}

impl View for DataType {
    type V = DataTypeView;

    open spec fn view(&self) -> DataTypeView {
        match self {
            DataType::Null => DataTypeView::Null,
            DataType::Boolean => DataTypeView::Boolean,
            DataType::Int32 => DataTypeView::Int32,
            DataType::Int64 => DataTypeView::Int64,
            DataType::UInt32 => DataTypeView::UInt32,
            DataType::UInt64 => DataTypeView::UInt64,
            DataType::Float32 => DataTypeView::Float32,
            DataType::Float64 => DataTypeView::Float64,
            DataType::Utf8 => DataTypeView::Utf8,
            DataType::Other(name) => DataTypeView::Other(name@),
        }
    }
}

impl Clone for DataType {
    fn clone(&self) -> (r: Self)
        ensures
            r@ == self@,
    {
        match self {
            DataType::Null => DataType::Null,
            DataType::Boolean => DataType::Boolean,
            DataType::Int32 => DataType::Int32,
            DataType::Int64 => DataType::Int64,
            DataType::UInt32 => DataType::UInt32,
            DataType::UInt64 => DataType::UInt64,
            DataType::Float32 => DataType::Float32,
            DataType::Float64 => DataType::Float64,
            DataType::Utf8 => DataType::Utf8,
            DataType::Other(name) => DataType::Other(name.clone()),
        }
    }
}

impl DataTypeView {
    /// The printed name of a type.
    pub open spec fn name(self) -> Seq<char> {
        match self {
            DataTypeView::Null => "Null"@,
            DataTypeView::Boolean => "Boolean"@,
            DataTypeView::Int32 => "Int32"@,
            DataTypeView::Int64 => "Int64"@,
            DataTypeView::UInt32 => "UInt32"@,
            DataTypeView::UInt64 => "UInt64"@,
            DataTypeView::Float32 => "Float32"@,
            DataTypeView::Float64 => "Float64"@,
            DataTypeView::Utf8 => "Utf8"@,
            DataTypeView::Other(name) => name,
        }
    }

    /// The type with a printed name.
    pub open spec fn named(name: Seq<char>) -> DataTypeView {
        if name == "Null"@ {
            DataTypeView::Null
        } else if name == "Boolean"@ {
            DataTypeView::Boolean
        } else if name == "Int32"@ {
            DataTypeView::Int32
        } else if name == "Int64"@ {
            DataTypeView::Int64
        } else if name == "UInt32"@ {
            DataTypeView::UInt32
        } else if name == "UInt64"@ {
            DataTypeView::UInt64
        } else if name == "Float32"@ {
            DataTypeView::Float32
        } else if name == "Float64"@ {
            DataTypeView::Float64
        } else if name == "Utf8"@ {
            DataTypeView::Utf8
        } else {
            DataTypeView::Other(name)
        }
    }

    pub open spec fn is_numeric(self) -> bool {
        match self {
            DataTypeView::Int32
            | DataTypeView::Int64
            | DataTypeView::UInt32
            | DataTypeView::UInt64
            | DataTypeView::Float32
            | DataTypeView::Float64 => true,
            _ => false,
        }
    }

    pub open spec fn is_boolean_or_null(self) -> bool {
        self is Boolean || self is Null
    }

    pub open spec fn is_float(self) -> bool {
        self is Float32 || self is Float64
    }

    pub open spec fn is_signed(self) -> bool {
        self is Int32 || self is Int64
    }

    pub open spec fn is_unsigned(self) -> bool {
        self is UInt32 || self is UInt64
    }

    /// The widest type of the same kind of number.
    pub open spec fn widest(self) -> Option<DataTypeView> {
        if self.is_signed() {
            Some(DataTypeView::Int64)
        } else if self.is_unsigned() {
            Some(DataTypeView::UInt64)
        } else if self.is_float() {
            Some(DataTypeView::Float64)
        } else {
            None
        }
    }
}

/// The type in which two numeric types, or one and NULL, are computed together.
pub open spec fn common_numeric(left: DataTypeView, right: DataTypeView) -> Option<DataTypeView> {
    if left is Null && right.is_numeric() {
        right.widest()
    } else if right is Null && left.is_numeric() {
        left.widest()
    } else if !left.is_numeric() || !right.is_numeric() {
        None
    } else if left.is_float() || right.is_float() {
        Some(DataTypeView::Float64)
    } else if left.is_signed() && right.is_signed() {
        Some(DataTypeView::Int64)
    } else if left.is_unsigned() && right.is_unsigned() {
        Some(DataTypeView::UInt64)
    } else {
        None
    }
}

/// Types meet in the same type whichever stands first.
pub proof fn common_numeric_is_symmetric(left: DataTypeView, right: DataTypeView)
    ensures
        common_numeric(left, right) == common_numeric(right, left),
{
}

/// The type with the name of a type is that type.
pub proof fn named_inverts_name(data_type: DataTypeView)
    requires
        !(data_type is Other),
    ensures
        DataTypeView::named(data_type.name()) == data_type,
{
    reveal_strlit("Null");
    reveal_strlit("Boolean");
    reveal_strlit("Int32");
    reveal_strlit("Int64");
    reveal_strlit("UInt32");
    reveal_strlit("UInt64");
    reveal_strlit("Float32");
    reveal_strlit("Float64");
    reveal_strlit("Utf8");
    assert("Null"@.len() == 4 && "Utf8"@.len() == 4);
    assert("Int32"@.len() == 5 && "Int64"@.len() == 5);
    assert("UInt32"@.len() == 6 && "UInt64"@.len() == 6);
    assert("Boolean"@.len() == 7 && "Float32"@.len() == 7 && "Float64"@.len() == 7);
    assert("Int32"@[3] == '3' && "Int64"@[3] == '6');
    assert("UInt32"@[4] == '3' && "UInt64"@[4] == '6');
    assert("Float32"@[5] == '3' && "Float64"@[5] == '6');
    assert("Null"@[0] == 'N' && "Utf8"@[0] == 'U');
    assert("Boolean"@[0] == 'B' && "Float32"@[0] == 'F' && "Float64"@[0] == 'F');
}

impl DataType {
    pub fn same(&self, other: &DataType) -> (r: bool)
        ensures
            r == (self@ == other@),
    {
        match (self, other) {
            (DataType::Null, DataType::Null) => true,
            (DataType::Boolean, DataType::Boolean) => true,
            (DataType::Int32, DataType::Int32) => true,
            (DataType::Int64, DataType::Int64) => true,
            (DataType::UInt32, DataType::UInt32) => true,
            (DataType::UInt64, DataType::UInt64) => true,
            (DataType::Float32, DataType::Float32) => true,
            (DataType::Float64, DataType::Float64) => true,
            (DataType::Utf8, DataType::Utf8) => true,
            (DataType::Other(a), DataType::Other(b)) => *a == *b,
            _ => false,
        }
    }

    /// The printed name of this type.
    pub fn to_text(&self) -> (r: String)
        ensures
            r@ == self@.name(),
    {
        match self {
            DataType::Null => "Null".to_owned(),
            DataType::Boolean => "Boolean".to_owned(),
            DataType::Int32 => "Int32".to_owned(),
            DataType::Int64 => "Int64".to_owned(),
            DataType::UInt32 => "UInt32".to_owned(),
            DataType::UInt64 => "UInt64".to_owned(),
            DataType::Float32 => "Float32".to_owned(),
            DataType::Float64 => "Float64".to_owned(),
            DataType::Utf8 => "Utf8".to_owned(),
            DataType::Other(name) => name.clone(),
        }
    }

    /// The type with a printed name.
    pub fn from_text(name: &str) -> (r: Self)
        ensures
            r@ == DataTypeView::named(name@),
    {
        if crate::text::same_text(name, "Null") {
            DataType::Null
        } else if crate::text::same_text(name, "Boolean") {
            DataType::Boolean
        } else if crate::text::same_text(name, "Int32") {
            DataType::Int32
        } else if crate::text::same_text(name, "Int64") {
            DataType::Int64
        } else if crate::text::same_text(name, "UInt32") {
            DataType::UInt32
        } else if crate::text::same_text(name, "UInt64") {
            DataType::UInt64
        } else if crate::text::same_text(name, "Float32") {
            DataType::Float32
        } else if crate::text::same_text(name, "Float64") {
            DataType::Float64
        } else if crate::text::same_text(name, "Utf8") {
            DataType::Utf8
        } else {
            DataType::Other(name.to_owned())
        }
    }

    pub fn is_numeric(&self) -> (r: bool)
        ensures
            r == self@.is_numeric(),
    {
        match self {
            DataType::Int32
            | DataType::Int64
            | DataType::UInt32
            | DataType::UInt64
            | DataType::Float32
            | DataType::Float64 => true,
            _ => false,
        }
    }

    pub fn is_null(&self) -> (r: bool)
        ensures
            r == self@ is Null,
    {
        match self {
            DataType::Null => true,
            _ => false,
        }
    }

    pub fn is_boolean_or_null(&self) -> (r: bool)
        ensures
            r == self@.is_boolean_or_null(),
    {
        match self {
            DataType::Boolean | DataType::Null => true,
            _ => false,
        }
    }

    /// The widest type of the same kind of number.
    fn widest(&self) -> (r: Option<DataType>)
        ensures
            match r {
                Some(t) => self@.widest() == Some(t@),
                None => self@.widest() is None,
            },
    {
        match self {
            DataType::Int32 | DataType::Int64 => Some(DataType::Int64),
            DataType::UInt32 | DataType::UInt64 => Some(DataType::UInt64),
            DataType::Float32 | DataType::Float64 => Some(DataType::Float64),
            _ => None,
        }
    }
}

/// The type in which two numeric types, or one and NULL, are computed together.
pub fn common_numeric_type(left: &DataType, right: &DataType) -> (r: Option<DataType>)
    ensures
        match r {
            Some(t) => common_numeric(left@, right@) == Some(t@),
            None => common_numeric(left@, right@) is None,
        },
{
    if left.is_null() && right.is_numeric() {
        return right.widest();
    }
    if right.is_null() && left.is_numeric() {
        return left.widest();
    }
    if !left.is_numeric() || !right.is_numeric() {
        return None;
    }
    match (left, right) {
        (DataType::Float64, _) | (_, DataType::Float64) | (DataType::Float32, _) | (
            _,
            DataType::Float32,
        ) => Some(DataType::Float64),
        (DataType::Int64, DataType::Int64)
        | (DataType::Int64, DataType::Int32)
        | (DataType::Int32, DataType::Int64)
        | (DataType::Int32, DataType::Int32) => Some(DataType::Int64),
        (DataType::UInt64, DataType::UInt64)
        | (DataType::UInt64, DataType::UInt32)
        | (DataType::UInt32, DataType::UInt64)
        | (DataType::UInt32, DataType::UInt32) => Some(DataType::UInt64),
        _ => None,
    }
}

/// One entry of the metadata of a field or a schema.
#[derive(Debug, PartialEq, Eq)]
pub struct MetadataEntry {
    pub key: String,
    pub value: String,
}

pub struct MetadataView {
    pub key: Seq<char>,
    pub value: Seq<char>,
}

impl View for MetadataEntry {
    type V = MetadataView;

    open spec fn view(&self) -> MetadataView {
        MetadataView { key: self.key@, value: self.value@ }
    }
}

impl Clone for MetadataEntry {
    fn clone(&self) -> (r: Self)
        ensures
            r@ == self@,
    {
        MetadataEntry { key: self.key.clone(), value: self.value.clone() }
    }
}

pub open spec fn metadata_views(entries: Seq<MetadataEntry>) -> Seq<MetadataView> {
    Seq::new(entries.len(), |i: int| entries[i]@)
}

pub fn clone_metadata(entries: &Vec<MetadataEntry>) -> (r: Vec<MetadataEntry>)
    ensures
        metadata_views(r@) == metadata_views(entries@),
{
    let mut r: Vec<MetadataEntry> = Vec::new();
    for i in 0..entries.len()
        invariant
            r.len() == i,
            forall|k: int| 0 <= k < i ==> (#[trigger] r@[k])@ == entries@[k]@,
    {
        r.push(entries[i].clone());
    }
    proof {
        assert(metadata_views(r@) =~= metadata_views(entries@));
    }
    r
}

/// A named column of a schema.
#[derive(Debug, PartialEq, Eq)]
pub struct Field {
    pub name: String,
    pub data_type: DataType,
    pub nullable: bool,
    /// In the order of the keys.
    pub metadata: Vec<MetadataEntry>,
}

pub struct FieldView {
    pub name: Seq<char>,
    pub data_type: DataTypeView,
    pub nullable: bool,
    pub metadata: Seq<MetadataView>,
}

impl View for Field {
    type V = FieldView;

    open spec fn view(&self) -> FieldView {
        FieldView {
            name: self.name@,
            data_type: self.data_type@,
            nullable: self.nullable,
            metadata: metadata_views(self.metadata@),
        }
    }
}

impl Clone for Field {
    fn clone(&self) -> (r: Self)
        ensures
            r@ == self@,
    {
        Field {
            name: self.name.clone(),
            data_type: self.data_type.clone(),
            nullable: self.nullable,
            metadata: clone_metadata(&self.metadata),
        }
    }
}

/// A field without metadata.
pub open spec fn plain_field(name: Seq<char>, data_type: DataTypeView, nullable: bool) -> FieldView {
    FieldView { name, data_type, nullable, metadata: Seq::empty() }
}

impl Field {
    pub fn new(name: String, data_type: DataType, nullable: bool) -> (r: Self)
        ensures
            r@ == plain_field(name@, data_type@, nullable),
    {
        let metadata: Vec<MetadataEntry> = Vec::new();
        proof {
            assert(metadata_views(metadata@) =~= Seq::empty());
        }
        Field { name, data_type, nullable, metadata }
    }
}

pub open spec fn field_views(fields: Seq<Field>) -> Seq<FieldView> {
    Seq::new(fields.len(), |i: int| fields[i]@)
}

pub fn clone_fields(fields: &Vec<Field>) -> (r: Vec<Field>)
    ensures
        field_views(r@) == field_views(fields@),
{
    let mut r: Vec<Field> = Vec::new();
    for i in 0..fields.len()
        invariant
            r.len() == i,
            forall|k: int| 0 <= k < i ==> (#[trigger] r@[k])@ == fields@[k]@,
    {
        r.push(fields[i].clone());
    }
    proof {
        assert(field_views(r@) =~= field_views(fields@));
    }
    r
}

/// The columns of a table or of an operator's output.
#[derive(Debug, PartialEq, Eq)]
pub struct Schema {
    pub fields: Vec<Field>,
    /// In the order of the keys.
    pub metadata: Vec<MetadataEntry>,
}

pub struct SchemaView {
    pub fields: Seq<FieldView>,
    pub metadata: Seq<MetadataView>,
}

impl View for Schema {
    type V = SchemaView;

    open spec fn view(&self) -> SchemaView {
        SchemaView { fields: field_views(self.fields@), metadata: metadata_views(self.metadata@) }
    }
}

impl Clone for Schema {
    fn clone(&self) -> (r: Self)
        ensures
            r@ == self@,
    {
        Schema { fields: clone_fields(&self.fields), metadata: clone_metadata(&self.metadata) }
    }
}

/// A schema without metadata.
pub open spec fn plain_schema(fields: Seq<FieldView>) -> SchemaView {
    SchemaView { fields, metadata: Seq::empty() }
}

impl Schema {
    pub fn new(fields: Vec<Field>) -> (r: Self)
        ensures
            r@ == plain_schema(field_views(fields@)),
    {
        let metadata: Vec<MetadataEntry> = Vec::new();
        proof {
            assert(metadata_views(metadata@) =~= Seq::empty());
        }
        Schema { fields, metadata }
    }
}

impl SchemaView {
    /// The names of the fields.
    pub open spec fn names(self) -> Seq<Seq<char>> {
        Seq::new(self.fields.len(), |i: int| self.fields[i].name)
    }
}

fn same_metadata(a: &Vec<MetadataEntry>, b: &Vec<MetadataEntry>) -> (r: bool)
    ensures
        r == (metadata_views(a@) == metadata_views(b@)),
{
    let ghost left = metadata_views(a@);
    let ghost right = metadata_views(b@);
    if a.len() != b.len() {
        proof {
            assert(left.len() != right.len());
        }
        return false;
    }
    for i in 0..a.len()
        invariant
            a.len() == b.len(),
            left == metadata_views(a@),
            right == metadata_views(b@),
            forall|k: int| 0 <= k < i ==> left[k] == #[trigger] right[k],
    {
        proof {
            assert(left[i as int] == a@[i as int]@);
            assert(right[i as int] == b@[i as int]@);
        }
        if !(a[i].key == b[i].key && a[i].value == b[i].value) {
            return false;
        }
    }
    proof {
        assert(left =~= right);
    }
    true
}

impl Field {
    pub fn same(&self, other: &Field) -> (r: bool)
        ensures
            r == (self@ == other@),
    {
        self.name == other.name && self.data_type.same(&other.data_type) && self.nullable
            == other.nullable && same_metadata(&self.metadata, &other.metadata)
    }

    /// Whether two fields are the same but for their names.
    pub fn same_kind(&self, other: &Field) -> (r: bool)
        ensures
            r == (self@.data_type == other@.data_type && self@.nullable == other@.nullable
                && self@.metadata == other@.metadata),
    {
        self.data_type.same(&other.data_type) && self.nullable == other.nullable && same_metadata(
            &self.metadata,
            &other.metadata,
        )
    }
}

impl Schema {
    pub fn same(&self, other: &Schema) -> (r: bool)
        ensures
            r == (self@ == other@),
    {
        let ghost left = self@.fields;
        let ghost right = other@.fields;
        if self.fields.len() != other.fields.len() {
            proof {
                assert(left.len() != right.len());
            }
            return false;
        }
        for i in 0..self.fields.len()
            invariant
                self.fields.len() == other.fields.len(),
                left == self@.fields,
                right == other@.fields,
                forall|k: int| 0 <= k < i ==> left[k] == #[trigger] right[k],
        {
            proof {
                assert(left[i as int] == self.fields@[i as int]@);
                assert(right[i as int] == other.fields@[i as int]@);
            }
            if !self.fields[i].same(&other.fields[i]) {
                return false;
            }
        }
        proof {
            assert(left =~= right);
        }
        same_metadata(&self.metadata, &other.metadata)
    }
}

} // verus!
