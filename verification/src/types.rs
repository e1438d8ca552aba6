//! Column types, schemas and rows.
use crate::text::{equal_ignoring_case, quoted, same_letters, to_quoted};
use crate::time::Timestamp;
use crate::value::{clone_values, enclose, views, ValueView};
use vstd::prelude::*;

pub use crate::value::Value;

verus! {

/// The type of a column.
#[derive(Debug, PartialEq, Eq)]
pub enum DataType {
    Boolean,
    Integer,
    BigInt,
    Double,
    String,
    Timestamp,
    Array(Box<DataType>),
    Mapping(Box<DataType>, Box<DataType>),
    Struct(Vec<Column>),
}

/// A named column with its type.
#[derive(Debug, PartialEq, Eq)]
pub struct Column {
    pub name: String,
    pub data_type: DataType,
}

/// What a `DataType` holds.
pub enum DataTypeView {
    Boolean,
    Integer,
    BigInt,
    Double,
    String,
    Timestamp,
    Array(Box<DataTypeView>),
    Mapping(Box<DataTypeView>, Box<DataTypeView>),
    Struct(Seq<ColumnView>),
}

/// What a `Column` holds.
pub struct ColumnView {
    pub name: Seq<char>,
    pub data_type: DataTypeView,
}

impl View for DataType {
    type V = DataTypeView;

    open spec fn view(&self) -> DataTypeView
        decreases self,
    {
        match self {
            DataType::Boolean => DataTypeView::Boolean,
            DataType::Integer => DataTypeView::Integer,
            DataType::BigInt => DataTypeView::BigInt,
            DataType::Double => DataTypeView::Double,
            DataType::String => DataTypeView::String,
            DataType::Timestamp => DataTypeView::Timestamp,
            DataType::Array(inner) => DataTypeView::Array(Box::new((**inner).view())),
            DataType::Mapping(k, v) => DataTypeView::Mapping(
                Box::new((**k).view()),
                Box::new((**v).view()),
            ),
            DataType::Struct(columns) => DataTypeView::Struct(columns_view(columns@)),
        }
    }
}

/// What columns hold.
pub open spec fn columns_view(s: Seq<Column>) -> Seq<ColumnView>
    decreases s,
{
    Seq::new(
        s.len(),
        |i: int|
            if 0 <= i < s.len() {
                s[i].view()
            } else {
                ColumnView { name: Seq::empty(), data_type: DataTypeView::Boolean }
            },
    )
}

impl View for Column {
    type V = ColumnView;

    open spec fn view(&self) -> ColumnView
        decreases self,
    {
        ColumnView { name: self.name@, data_type: self.data_type.view() }
    }
}

/// A struct type holds what its columns hold.
pub broadcast proof fn lemma_struct_view(t: DataType)
    ensures
        t is Struct ==> (#[trigger] t@) == DataTypeView::Struct(views(t->Struct_0@)),
{
    if t is Struct {
        assert(columns_view(t->Struct_0@) =~= views(t->Struct_0@));
    }
}

impl Clone for DataType {
    fn clone(&self) -> (r: DataType)
        ensures
            r@ == self@,
        decreases self,
    {
        broadcast use lemma_struct_view;

        match self {
            DataType::Boolean => DataType::Boolean,
            DataType::Integer => DataType::Integer,
            DataType::BigInt => DataType::BigInt,
            DataType::Double => DataType::Double,
            DataType::String => DataType::String,
            DataType::Timestamp => DataType::Timestamp,
            DataType::Array(inner) => DataType::Array(Box::new((**inner).clone())),
            DataType::Mapping(k, v) => DataType::Mapping(
                Box::new((**k).clone()),
                Box::new((**v).clone()),
            ),
            DataType::Struct(columns) => {
                let mut r: Vec<Column> = Vec::new();
                let mut i: usize = 0;
                while i < columns.len()
                    invariant
                        i <= columns.len(),
                        r.len() == i,
                        forall|j: int| 0 <= j < i ==> r@[j]@ == columns@[j]@,
                        decreases_to!(self => columns),
                    decreases columns.len() - i,
                {
                    r.push(columns[i].clone());
                    i = i + 1;
                }
                proof {
                    assert(views(r@) =~= views(columns@));
                }
                DataType::Struct(r)
            },
        }
    }
}

impl Clone for Column {
    fn clone(&self) -> (r: Column)
        ensures
            r@ == self@,
        decreases self,
    {
        Column { name: self.name.clone(), data_type: self.data_type.clone() }
    }
}

/// The text of a type.
pub open spec fn data_type_text(t: DataTypeView) -> Seq<char>
    decreases t, 0int,
{
    match t {
        DataTypeView::Boolean => "BOOLEAN"@,
        DataTypeView::Integer => "INTEGER"@,
        DataTypeView::BigInt => "BIGINT"@,
        DataTypeView::Double => "DOUBLE"@,
        DataTypeView::String => "STRING"@,
        DataTypeView::Timestamp => "TIMESTAMP"@,
        DataTypeView::Array(inner) => "ARRAY<"@ + data_type_text(*inner) + ">"@,
        DataTypeView::Mapping(k, v) => "MAP<"@ + (data_type_text(*k) + ", "@ + data_type_text(*v))
            + ">"@,
        DataTypeView::Struct(columns) => "STRUCT<"@ + columns_text(columns, 0) + ">"@,
    }
}

/// The texts of the columns from a place on, separated by commas.
pub open spec fn columns_text(columns: Seq<ColumnView>, i: nat) -> Seq<char>
    decreases columns, columns.len() - i,
{
    if i >= columns.len() {
        Seq::empty()
    } else {
        let c = columns[i as int];
        let text = c.name + " "@ + data_type_text(c.data_type);
        if i + 1 == columns.len() {
            text
        } else {
            text + ", "@ + columns_text(columns, i + 1)
        }
    }
}

/// The debug text of a type.
pub open spec fn data_type_debug(t: DataTypeView) -> Seq<char>
    decreases t, 0int,
{
    match t {
        DataTypeView::Boolean => "Boolean"@,
        DataTypeView::Integer => "Integer"@,
        DataTypeView::BigInt => "BigInt"@,
        DataTypeView::Double => "Double"@,
        DataTypeView::String => "String"@,
        DataTypeView::Timestamp => "Timestamp"@,
        DataTypeView::Array(inner) => "Array("@ + data_type_debug(*inner) + ")"@,
        DataTypeView::Mapping(k, v) => "Map("@ + (data_type_debug(*k) + ", "@ + data_type_debug(*v))
            + ")"@,
        DataTypeView::Struct(columns) => "Struct(["@ + columns_debug(columns, 0) + "])"@,
    }
}

/// The debug texts of the columns from a place on, separated by commas.
pub open spec fn columns_debug(columns: Seq<ColumnView>, i: nat) -> Seq<char>
    decreases columns, columns.len() - i,
{
    if i >= columns.len() {
        Seq::empty()
    } else {
        let c = columns[i as int];
        let text = "Column { name: "@ + quoted(c.name) + ", data_type: "@ + data_type_debug(
            c.data_type,
        ) + " }"@;
        if i + 1 == columns.len() {
            text
        } else {
            text + ", "@ + columns_debug(columns, i + 1)
        }
    }
}

/// Puts a text between two others, with a comma.
fn pair(a: &str, b: &str) -> (r: String)
    ensures
        r@ == a@ + ", "@ + b@,
{
    enclose(a, ", ", b)
}

impl DataType {
    /// The text of the type.
    pub fn to_text(&self) -> (r: String)
        ensures
            r@ == data_type_text(self@),
        decreases self, 0int,
    {
        broadcast use lemma_struct_view;

        match self {
            DataType::Boolean => "BOOLEAN".to_owned(),
            DataType::Integer => "INTEGER".to_owned(),
            DataType::BigInt => "BIGINT".to_owned(),
            DataType::Double => "DOUBLE".to_owned(),
            DataType::String => "STRING".to_owned(),
            DataType::Timestamp => "TIMESTAMP".to_owned(),
            DataType::Array(inner) => enclose("ARRAY<", (**inner).to_text().as_str(), ">"),
            DataType::Mapping(k, v) => {
                let both = pair((**k).to_text().as_str(), (**v).to_text().as_str());
                enclose("MAP<", both.as_str(), ">")
            },
            DataType::Struct(columns) => enclose("STRUCT<", write_columns(columns, 0).as_str(), ">"),
        }
    }

    /// The debug text of the type.
    pub fn to_debug(&self) -> (r: String)
        ensures
            r@ == data_type_debug(self@),
        decreases self, 0int,
    {
        broadcast use lemma_struct_view;

        match self {
            DataType::Boolean => "Boolean".to_owned(),
            DataType::Integer => "Integer".to_owned(),
            DataType::BigInt => "BigInt".to_owned(),
            DataType::Double => "Double".to_owned(),
            DataType::String => "String".to_owned(),
            DataType::Timestamp => "Timestamp".to_owned(),
            DataType::Array(inner) => enclose("Array(", (**inner).to_debug().as_str(), ")"),
            DataType::Mapping(k, v) => {
                let both = pair((**k).to_debug().as_str(), (**v).to_debug().as_str());
                enclose("Map(", both.as_str(), ")")
            },
            DataType::Struct(columns) => enclose(
                "Struct([",
                write_columns_debug(columns, 0).as_str(),
                "])",
            ),
        }
    }
}

/// Writes columns, from a place on.
fn write_columns(columns: &Vec<Column>, from: usize) -> (r: String)
    requires
        from <= columns.len(),
    ensures
        r@ == columns_text(views(columns@), from as nat),
    decreases columns, columns.len() - from,
{
    if from == columns.len() {
        return String::new();
    }
    let mut r = columns[from].name.clone();
    r.append(" ");
    r.append(columns[from].data_type.to_text().as_str());
    if from + 1 < columns.len() {
        r.append(", ");
        r.append(write_columns(columns, from + 1).as_str());
    }
    r
}

/// Writes columns in their debug forms, from a place on.
fn write_columns_debug(columns: &Vec<Column>, from: usize) -> (r: String)
    requires
        from <= columns.len(),
    ensures
        r@ == columns_debug(views(columns@), from as nat),
    decreases columns, columns.len() - from,
{
    if from == columns.len() {
        return String::new();
    }
    let mut r = "Column { name: ".to_owned();
    r.append(to_quoted(columns[from].name.as_str()).as_str());
    r.append(", data_type: ");
    r.append(columns[from].data_type.to_debug().as_str());
    r.append(" }");
    if from + 1 < columns.len() {
        r.append(", ");
        r.append(write_columns_debug(columns, from + 1).as_str());
    }
    r
}

impl Column {
    pub fn new(name: &str, data_type: DataType) -> (r: Column)
        ensures
            r@ == (ColumnView { name: name@, data_type: data_type@ }),
    {
        Column { name: name.to_owned(), data_type }
    }
}

/// The columns that make up the rows of a source or a result.
#[derive(Debug, PartialEq, Eq)]
pub struct Schema {
    pub columns: Vec<Column>,
}

impl View for Schema {
    type V = Seq<ColumnView>;

    open spec fn view(&self) -> Seq<ColumnView> {
        views(self.columns@)
    }
}

/// The first column from `i` on with a name, whatever the case of its letters.
pub open spec fn find_column(s: Seq<ColumnView>, name: Seq<char>, i: nat) -> Option<nat>
    decreases s.len() - i,
{
    if i >= s.len() {
        None
    } else if same_letters(s[i as int].name, name) {
        Some(i)
    } else {
        find_column(s, name, i + 1)
    }
}

/// Copies columns.
pub fn clone_columns(v: &Vec<Column>) -> (r: Vec<Column>)
    ensures
        views(r@) == views(v@),
{
    let mut r: Vec<Column> = Vec::new();
    let mut i: usize = 0;
    while i < v.len()
        invariant
            i <= v.len(),
            r.len() == i,
            forall|j: int| 0 <= j < i ==> r@[j]@ == v@[j]@,
        decreases v.len() - i,
    {
        r.push(v[i].clone());
        i = i + 1;
    }
    proof {
        assert(views(r@) =~= views(v@));
    }
    r
}

impl Clone for Schema {
    fn clone(&self) -> (r: Schema)
        ensures
            r@ == self@,
    {
        Schema { columns: clone_columns(&self.columns) }
    }
}

/// A column that was found has the name, and none before it does.
pub proof fn lemma_find_column(s: Seq<ColumnView>, name: Seq<char>, i: nat)
    ensures
        match find_column(s, name, i) {
            Some(k) => i <= k < s.len() && same_letters(s[k as int].name, name) && forall|j: int|
                i <= j < k ==> !same_letters(#[trigger] s[j].name, name),
            None => forall|j: int| i <= j < s.len() ==> !same_letters(#[trigger] s[j].name, name),
        },
    decreases s.len() - i,
{
    if i < s.len() && !same_letters(s[i as int].name, name) {
        lemma_find_column(s, name, i + 1);
    }
}

impl Schema {
    pub fn new(columns: Vec<Column>) -> (r: Schema)
        ensures
            r@ == views(columns@),
            r.columns == columns,
    {
        Schema { columns }
    }

    pub fn empty() -> (r: Schema)
        ensures
            r@ == Seq::<ColumnView>::empty(),
    {
        let r = Schema { columns: Vec::new() };
        proof {
            assert(r@ =~= Seq::<ColumnView>::empty());
        }
        r
    }

    /// The place of the first column with a name, whatever the case of its
    /// letters.
    pub fn index_of(&self, name: &str) -> (r: Option<usize>)
        ensures
            match r {
                Some(i) => find_column(self@, name@, 0) == Some(i as nat) && i < self@.len(),
                None => find_column(self@, name@, 0) is None,
            },
    {
        let mut i: usize = 0;
        while i < self.columns.len()
            invariant
                i <= self.columns.len(),
                find_column(self@, name@, 0) == find_column(self@, name@, i as nat),
            decreases self.columns.len() - i,
        {
            if equal_ignoring_case(self.columns[i].name.as_str(), name) {
                return Some(i);
            }
            i = i + 1;
        }
        None
    }

    /// The first column with a name, whatever the case of its letters.
    pub fn column(&self, name: &str) -> (r: Option<&Column>)
        ensures
            match r {
                Some(c) => find_column(self@, name@, 0) is Some && c@ == self@[find_column(
                    self@,
                    name@,
                    0,
                )->0 as int],
                None => find_column(self@, name@, 0) is None,
            },
    {
        match self.index_of(name) {
            Some(i) => Some(&self.columns[i]),
            None => None,
        }
    }

    /// The type of the first column with a name, whatever the case of its
    /// letters.
    pub fn data_type(&self, name: &str) -> (r: Option<&DataType>)
        ensures
            match r {
                Some(t) => find_column(self@, name@, 0) is Some && t@ == self@[find_column(
                    self@,
                    name@,
                    0,
                )->0 as int].data_type,
                None => find_column(self@, name@, 0) is None,
            },
    {
        match self.column(name) {
            Some(c) => Some(&c.data_type),
            None => None,
        }
    }

    pub fn len(&self) -> (r: usize)
        ensures
            r == self@.len(),
    {
        self.columns.len()
    }

    pub fn is_empty(&self) -> (r: bool)
        ensures
            r == (self@.len() == 0),
    {
        self.columns.len() == 0
    }
}

/// Where a row comes from.
#[derive(Debug)]
pub struct RowMetadata {
    pub topic: Option<String>,
    pub partition: Option<u32>,
    pub offset: Option<u64>,
    pub timestamp: Option<Timestamp>,
    pub key: Option<String>,
    pub window_start: Option<Timestamp>,
    pub window_end: Option<Timestamp>,
}

/// What a `RowMetadata` holds.
pub struct RowMetadataView {
    pub topic: Option<Seq<char>>,
    pub partition: Option<u32>,
    pub offset: Option<u64>,
    pub timestamp: Option<Timestamp>,
    pub key: Option<Seq<char>>,
    pub window_start: Option<Timestamp>,
    pub window_end: Option<Timestamp>,
}

/// What an optional text holds.
pub open spec fn text_view(s: Option<String>) -> Option<Seq<char>> {
    match s {
        Some(s) => Some(s@),
        None => None,
    }
}

impl View for RowMetadata {
    type V = RowMetadataView;

    open spec fn view(&self) -> RowMetadataView {
        RowMetadataView {
            topic: text_view(self.topic),
            partition: self.partition,
            offset: self.offset,
            timestamp: self.timestamp,
            key: text_view(self.key),
            window_start: self.window_start,
            window_end: self.window_end,
        }
    }
}

/// Copies an optional text.
pub fn clone_text(s: &Option<String>) -> (r: Option<String>)
    ensures
        text_view(r) == text_view(*s),
{
    match s {
        Some(s) => Some(s.clone()),
        None => None,
    }
}

/// Metadata that says nothing.
pub open spec fn no_metadata() -> RowMetadataView {
    RowMetadataView {
        topic: None,
        partition: None,
        offset: None,
        timestamp: None,
        key: None,
        window_start: None,
        window_end: None,
    }
}

impl Default for RowMetadata {
    fn default() -> (r: RowMetadata)
        ensures
            r@ == no_metadata(),
    {
        RowMetadata {
            topic: None,
            partition: None,
            offset: None,
            timestamp: None,
            key: None,
            window_start: None,
            window_end: None,
        }
    }
}

impl Clone for RowMetadata {
    fn clone(&self) -> (r: RowMetadata)
        ensures
            r@ == self@,
    {
        RowMetadata {
            topic: clone_text(&self.topic),
            partition: self.partition,
            offset: self.offset,
            timestamp: self.timestamp,
            key: clone_text(&self.key),
            window_start: self.window_start,
            window_end: self.window_end,
        }
    }
}

/// A row of values, and where it comes from.
#[derive(Debug)]
pub struct Row {
    pub values: Vec<Value>,
    pub metadata: RowMetadata,
}

/// What a `Row` holds.
pub struct RowView {
    pub values: Seq<ValueView>,
    pub metadata: RowMetadataView,
}

impl View for Row {
    type V = RowView;

    open spec fn view(&self) -> RowView {
        RowView { values: views(self.values@), metadata: self.metadata@ }
    }
}

impl Clone for Row {
    fn clone(&self) -> (r: Row)
        ensures
            r@ == self@,
    {
        Row { values: clone_values(&self.values), metadata: self.metadata.clone() }
    }
}

/// The value of a field; null where the row has no such field.
pub open spec fn field(values: Seq<ValueView>, i: int) -> ValueView {
    if 0 <= i < values.len() {
        values[i]
    } else {
        ValueView::Null
    }
}

impl Row {
    pub fn new(values: Vec<Value>) -> (r: Row)
        ensures
            r@ == (RowView { values: views(values@), metadata: no_metadata() }),
    {
        Row { values, metadata: RowMetadata::default() }
    }

    pub fn with_metadata(values: Vec<Value>, metadata: RowMetadata) -> (r: Row)
        ensures
            r@ == (RowView { values: views(values@), metadata: metadata@ }),
    {
        Row { values, metadata }
    }

    /// The value of a field; null where the row has no such field.
    pub fn get(&self, index: usize) -> (r: &Value)
        ensures
            r@ == field(self@.values, index as int),
    {
        if index < self.values.len() {
            &self.values[index]
        } else {
            &Value::Null
        }
    }
}

/// It does not matter in which case the letters of a column's name are written.
pub proof fn lemma_column_case(s: Seq<ColumnView>, a: Seq<char>, b: Seq<char>, i: nat)
    requires
        same_letters(a, b),
    ensures
        find_column(s, a, i) == find_column(s, b, i),
    decreases s.len() - i,
{
    if i < s.len() {
        lemma_column_case(s, a, b, i + 1);
    }
}

} // verus!
