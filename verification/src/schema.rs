//! The streams and tables that queries can read.
use crate::entries::{
    distinct_names, entry_find, entry_index, entry_remove, lemma_entry_index, lemma_entry_push,
    lemma_entry_remove, lemma_found_at,
};
use crate::error::{fail3, outcome, Error};
use crate::text::{ascii_upper, folded, same_letters, same_text, to_upper, upper, upper_of_ascii};
use crate::types::{clone_text, text_view, Column, ColumnView, DataType, Schema};
use crate::value::views;
use vstd::prelude::*;

verus! {

/// Whether a source is a stream or a table.
#[derive(Clone, Copy, Debug, PartialEq, Eq, Structural)]
pub enum SourceType {
    Stream,
    Table,
}

/// What is known of a source.
#[derive(Debug)]
pub struct SourceInfo {
    pub name: String,
    pub source_type: SourceType,
    pub schema: Schema,
    pub topic: String,
    pub key_column: Option<String>,
    pub value_format: String,
}

/// What a `SourceInfo` holds.
pub struct SourceView {
    pub name: Seq<char>,
    pub source_type: SourceType,
    pub schema: Seq<ColumnView>,
    pub topic: Seq<char>,
    pub key_column: Option<Seq<char>>,
    pub value_format: Seq<char>,
}

impl View for SourceInfo {
    type V = SourceView;

    open spec fn view(&self) -> SourceView {
        SourceView {
            name: self.name@,
            source_type: self.source_type,
            schema: self.schema@,
            topic: self.topic@,
            key_column: text_view(self.key_column),
            value_format: self.value_format@,
        }
    }
}

impl Clone for SourceInfo {
    fn clone(&self) -> (r: SourceInfo)
        ensures
            r@ == self@,
    {
        SourceInfo {
            name: self.name.clone(),
            source_type: self.source_type,
            schema: self.schema.clone(),
            topic: self.topic.clone(),
            key_column: clone_text(&self.key_column),
            value_format: self.value_format.clone(),
        }
    }
}

/// The known sources. Each stands under its name in upper case, and no two under
/// the same.
#[derive(Debug)]
pub struct SchemaRegistry {
    entries: Vec<(String, SourceInfo)>,
}

/// The message about a source that is known already.
pub open spec fn already_registered(name: Seq<char>) -> Seq<char> {
    "Source '"@ + name + "' already registered"@
}

/// The sources after one more was registered, given what its name is in upper
/// case.
pub open spec fn registered(
    sources: Seq<(Seq<char>, SourceView)>,
    key: Seq<char>,
    info: SourceView,
) -> Seq<(Seq<char>, SourceView)> {
    if entry_find(sources, key, 0) is Some {
        sources
    } else {
        sources.push((key, info))
    }
}

/// The answer to a registration.
pub open spec fn registration(
    sources: Seq<(Seq<char>, SourceView)>,
    key: Seq<char>,
    name: Seq<char>,
) -> Result<(), Seq<char>> {
    if entry_find(sources, key, 0) is Some {
        Err(already_registered(name))
    } else {
        Ok(())
    }
}

/// Whether each source stands under its name in upper case.
pub open spec fn keyed(sources: Seq<(Seq<char>, SourceView)>) -> bool {
    forall|i: int| 0 <= i < sources.len() ==> (#[trigger] sources[i]).0 == upper(sources[i].1.name)
}

/// A stream.
pub open spec fn stream_source(
    name: Seq<char>,
    schema: Seq<ColumnView>,
    topic: Seq<char>,
) -> SourceView {
    SourceView {
        name,
        source_type: SourceType::Stream,
        schema,
        topic,
        key_column: None,
        value_format: "JSON"@,
    }
}

/// A table.
pub open spec fn table_source(
    name: Seq<char>,
    schema: Seq<ColumnView>,
    topic: Seq<char>,
    key_column: Seq<char>,
) -> SourceView {
    SourceView {
        name,
        source_type: SourceType::Table,
        schema,
        topic,
        key_column: Some(key_column),
        value_format: "JSON"@,
    }
}

/// The columns with given names and types.
pub open spec fn named_columns(columns: Seq<(String, DataType)>) -> Seq<ColumnView> {
    columns.map_values(
        |c: (String, DataType)| ColumnView { name: c.0@, data_type: c.1@ },
    )
}

impl View for SchemaRegistry {
    type V = Seq<(Seq<char>, SourceView)>;

    closed spec fn view(&self) -> Seq<(Seq<char>, SourceView)> {
        self.entries@.map_values(|e: (String, SourceInfo)| (e.0@, e.1@))
    }
}

impl Default for SchemaRegistry {
    fn default() -> (r: SchemaRegistry)
        ensures
            r@ == Seq::<(Seq<char>, SourceView)>::empty(),
    {
        let r = SchemaRegistry { entries: Vec::new() };
        proof {
            assert(r@ =~= Seq::<(Seq<char>, SourceView)>::empty());
        }
        r
    }
}

impl SchemaRegistry {
    #[verifier::type_invariant]
    spec fn well_formed(self) -> bool {
        distinct_names(self@)
    }

    pub fn new() -> (r: SchemaRegistry)
        ensures
            r@ == Seq::<(Seq<char>, SourceView)>::empty(),
    {
        SchemaRegistry::default()
    }

    fn find(&self, key: &str) -> (r: Option<usize>)
        ensures
            match r {
                Some(i) => entry_index(self@, key@, 0) == Some(i as nat) && i < self@.len(),
                None => entry_index(self@, key@, 0) is None,
            },
    {
        let mut i: usize = 0;
        while i < self.entries.len()
            invariant
                i <= self.entries.len(),
                entry_index(self@, key@, 0) == entry_index(self@, key@, i as nat),
            decreases self.entries.len() - i,
        {
            if same_text(self.entries[i].0.as_str(), key) {
                return Some(i);
            }
            i = i + 1;
        }
        None
    }

    /// Registers a source, given what its name is in upper case.
    pub fn register_under(&mut self, key: String, info: SourceInfo) -> (r: Result<(), Error>)
        ensures
            outcome(r) == registration(old(self)@, key@, info@.name),
            final(self)@ == registered(old(self)@, key@, info@),
    {
        proof {
            use_type_invariant(&*self);
            lemma_entry_index(self@, key@, 0);
        }
        if self.find(key.as_str()).is_some() {
            return Err(fail3("Source '", info.name.as_str(), "' already registered"));
        }
        let ghost before = self@;
        let ghost entry = (key@, info@);
        proof {
            lemma_entry_push(before, key@, info@, key@);
        }
        let mut entries: Vec<(String, SourceInfo)> = Vec::new();
        std::mem::swap(&mut entries, &mut self.entries);
        entries.push((key, info));
        proof {
            let sources = entries@.map_values(|e: (String, SourceInfo)| (e.0@, e.1@));
            assert(sources =~= before.push(entry));
        }
        self.entries = entries;
        Ok(())
    }

    pub fn register_stream(
        &mut self,
        name: &str,
        schema: Schema,
        topic: &str,
    ) -> (r: Result<(), Error>)
        ensures
            outcome(r) == registration(old(self)@, upper(name@), name@),
            final(self)@ == registered(
                old(self)@,
                upper(name@),
                stream_source(name@, schema@, topic@),
            ),
            upper_of_ascii(name@),
    {
        let key = to_upper(name);
        self.register_under(
            key,
            SourceInfo {
                name: name.to_owned(),
                source_type: SourceType::Stream,
                schema,
                topic: topic.to_owned(),
                key_column: None,
                value_format: "JSON".to_owned(),
            },
        )
    }

    pub fn register_table(
        &mut self,
        name: &str,
        schema: Schema,
        topic: &str,
        key_column: &str,
    ) -> (r: Result<(), Error>)
        ensures
            outcome(r) == registration(old(self)@, upper(name@), name@),
            final(self)@ == registered(
                old(self)@,
                upper(name@),
                table_source(name@, schema@, topic@, key_column@),
            ),
            upper_of_ascii(name@),
    {
        let key = to_upper(name);
        self.register_under(
            key,
            SourceInfo {
                name: name.to_owned(),
                source_type: SourceType::Table,
                schema,
                topic: topic.to_owned(),
                key_column: Some(key_column.to_owned()),
                value_format: "JSON".to_owned(),
            },
        )
    }

    pub fn register_source(&mut self, info: SourceInfo) -> (r: Result<(), Error>)
        ensures
            outcome(r) == registration(old(self)@, upper(info@.name), info@.name),
            final(self)@ == registered(old(self)@, upper(info@.name), info@),
            upper_of_ascii(info@.name),
    {
        let key = to_upper(info.name.as_str());
        self.register_under(key, info)
    }

    /// The source that stands under a name in upper case.
    pub fn get_under(&self, key: &str) -> (r: Option<&SourceInfo>)
        ensures
            match r {
                Some(s) => entry_find(self@, key@, 0) == Some(s@),
                None => entry_find(self@, key@, 0) is None,
            },
    {
        proof {
            lemma_entry_index(self@, key@, 0);
        }
        match self.find(key) {
            Some(i) => Some(&self.entries[i].1),
            None => None,
        }
    }

    /// The source with a name, whatever the case of its letters.
    pub fn get(&self, name: &str) -> (r: Option<&SourceInfo>)
        ensures
            match r {
                Some(s) => entry_find(self@, upper(name@), 0) == Some(s@),
                None => entry_find(self@, upper(name@), 0) is None,
            },
            upper_of_ascii(name@),
    {
        let key = to_upper(name);
        self.get_under(key.as_str())
    }

    /// Removes the source with a name, whatever the case of its letters.
    pub fn remove(&mut self, name: &str) -> (r: Option<SourceInfo>)
        ensures
            match r {
                Some(s) => entry_find(old(self)@, upper(name@), 0) == Some(s@),
                None => entry_find(old(self)@, upper(name@), 0) is None,
            },
            final(self)@ == entry_remove(old(self)@, upper(name@)),
            upper_of_ascii(name@),
    {
        let key = to_upper(name);
        let ghost before = self@;
        proof {
            use_type_invariant(&*self);
            lemma_entry_index(before, key@, 0);
            lemma_entry_remove(before, key@, key@);
        }
        match self.find(key.as_str()) {
            Some(i) => {
                let mut entries: Vec<(String, SourceInfo)> = Vec::new();
                std::mem::swap(&mut entries, &mut self.entries);
                let removed = entries.remove(i);
                proof {
                    let sources = entries@.map_values(|e: (String, SourceInfo)| (e.0@, e.1@));
                    assert(sources =~= before.remove(i as int));
                }
                self.entries = entries;
                Some(removed.1)
            },
            None => None,
        }
    }

    /// All sources, in the order in which they were registered.
    pub fn list(&self) -> (r: Vec<&SourceInfo>)
        ensures
            r@.map_values(|s: &SourceInfo| s@) == self@.map_values(
                |e: (Seq<char>, SourceView)| e.1,
            ),
            distinct_names(self@),
            keyed(self@) ==> forall|i: int|
                0 <= i < r.len() ==> entry_find(self@, upper((#[trigger] r@[i])@.name), 0) == Some(
                    r@[i]@,
                ),
    {
        proof {
            use_type_invariant(self);
        }
        let mut r: Vec<&SourceInfo> = Vec::new();
        let mut i: usize = 0;
        while i < self.entries.len()
            invariant
                i <= self.entries.len(),
                r.len() == i,
                forall|j: int| 0 <= j < i ==> r@[j]@ == self.entries@[j].1@,
            decreases self.entries.len() - i,
        {
            r.push(&self.entries[i].1);
            i = i + 1;
        }
        proof {
            assert(r@.map_values(|s: &SourceInfo| s@) =~= self@.map_values(
                |e: (Seq<char>, SourceView)| e.1,
            ));
            if keyed(self@) {
                assert forall|j: int| 0 <= j < r.len() implies entry_find(
                    self@,
                    upper((#[trigger] r@[j])@.name),
                    0,
                ) == Some(r@[j]@) by {
                    lemma_listed_is_found(self@, j);
                }
            }
        }
        r
    }

    /// The columns of the source with a name.
    pub fn schema_for(&self, name: &str) -> (r: Option<&Schema>)
        ensures
            match (r, entry_find(self@, upper(name@), 0)) {
                (Some(s), Some(info)) => s@ == info.schema,
                (None, None) => true,
                _ => false,
            },
    {
        match self.get(name) {
            Some(info) => Some(&info.schema),
            None => None,
        }
    }

    /// The topic of the source with a name.
    pub fn topic_for(&self, name: &str) -> (r: Option<&str>)
        ensures
            match (r, entry_find(self@, upper(name@), 0)) {
                (Some(s), Some(info)) => s@ == info.topic,
                (None, None) => true,
                _ => false,
            },
    {
        match self.get(name) {
            Some(info) => Some(info.topic.as_str()),
            None => None,
        }
    }

    /// The schema whose columns have given names and types.
    pub fn build_schema(columns: &[(String, DataType)]) -> (r: Schema)
        ensures
            r@ == named_columns(columns@),
    {
        let mut made: Vec<Column> = Vec::new();
        let mut i: usize = 0;
        while i < columns.len()
            invariant
                i <= columns.len(),
                made.len() == i,
                forall|j: int| 0 <= j < i ==> made@[j]@ == named_columns(columns@)[j],
            decreases columns.len() - i,
        {
            made.push(Column::new(columns[i].0.as_str(), columns[i].1.clone()));
            i = i + 1;
        }
        proof {
            assert(views(made@) =~= named_columns(columns@));
        }
        Schema::new(made)
    }
}

/// What is registered can be looked up, until it is removed; other sources stay
/// as they are.
pub proof fn lemma_registered_is_found(
    sources: Seq<(Seq<char>, SourceView)>,
    key: Seq<char>,
    info: SourceView,
    other: Seq<char>,
)
    requires
        distinct_names(sources),
        entry_find(sources, key, 0) is None,
    ensures
        entry_find(registered(sources, key, info), key, 0) == Some(info),
        other != key ==> entry_find(registered(sources, key, info), other, 0) == entry_find(
            sources,
            other,
            0,
        ),
        entry_remove(registered(sources, key, info), key) == sources,
{
    lemma_entry_push(sources, key, info, other);
    let r = registered(sources, key, info);
    lemma_entry_index(sources, key, 0);
    lemma_entry_index(r, key, 0);
    assert(r.remove(sources.len() as int) =~= sources);
}

/// What was registered before cannot be registered again.
pub proof fn lemma_registered_once(
    sources: Seq<(Seq<char>, SourceView)>,
    key: Seq<char>,
    info: SourceView,
    name: Seq<char>,
)
    ensures
        registration(registered(sources, key, info), key, name) == Err::<(), Seq<char>>(
            already_registered(name),
        ),
{
    if entry_find(sources, key, 0) is None {
        lemma_entry_push(sources, key, info, key);
    }
}

/// Sources that are registered under their names in upper case stay so when another
/// one is registered in this way, and when one is removed.
pub proof fn lemma_keyed(
    sources: Seq<(Seq<char>, SourceView)>,
    info: SourceView,
    name: Seq<char>,
)
    requires
        keyed(sources),
    ensures
        keyed(registered(sources, upper(info.name), info)),
        keyed(entry_remove(sources, name)),
{
    lemma_entry_index(sources, name, 0);
    let r = entry_remove(sources, name);
    assert forall|i: int| 0 <= i < r.len() implies (#[trigger] r[i]).0 == upper(r[i].1.name) by {
        match entry_index(sources, name, 0) {
            Some(k) => {
                if i < k {
                    assert(r[i] == sources[i]);
                } else {
                    assert(r[i] == sources[i + 1]);
                }
            },
            None => {},
        }
    }
}

/// Each source of a list is what its name looks up, where the sources stand under their
/// names.
pub proof fn lemma_listed_is_found(sources: Seq<(Seq<char>, SourceView)>, i: int)
    requires
        distinct_names(sources),
        keyed(sources),
        0 <= i < sources.len(),
    ensures
        entry_find(sources, upper(sources[i].1.name), 0) == Some(sources[i].1),
{
    lemma_found_at(sources, sources[i].0, 0, i as nat);
}

/// Names of ASCII letters that differ in their case alone stand in the same place: in
/// upper case they are the same.
pub proof fn lemma_letter_case(a: Seq<char>, b: Seq<char>)
    ensures
        same_letters(a, b) <==> a.map_values(|c: char| ascii_upper(c)) == b.map_values(
            |c: char| ascii_upper(c),
        ),
{
    let x = a.map_values(|c: char| ascii_upper(c));
    let y = b.map_values(|c: char| ascii_upper(c));
    if same_letters(a, b) {
        assert(a.len() == folded(a).len() && b.len() == folded(b).len());
        assert forall|i: int| 0 <= i < a.len() implies x[i] == y[i] by {
            assert(folded(a)[i] == folded(b)[i]);
        }
        assert(x =~= y);
    }
    if x == y {
        assert(a.len() == x.len() && b.len() == y.len());
        assert forall|i: int| 0 <= i < a.len() implies folded(a)[i] == folded(b)[i] by {
            assert(x[i] == y[i]);
        }
        assert(folded(a) =~= folded(b));
    }
}

} // verus!
