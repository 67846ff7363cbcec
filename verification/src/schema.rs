//! The schema of a dataset: its fields, and the indices over them.

use vstd::prelude::*;
use vstd::string::StringExecFns;

verus! {

/// A field of a schema. It has a name and, so far, nothing else.
#[derive(Debug)]
pub struct Field {
    name: String,
}

#[derive(Debug)]
struct Index {
    name: String,
    fds: Vec<String>,
}

/// The fields of a dataset in the order they were given, no name twice, and
/// the indices over them in the order they were made, no name twice.
#[derive(Debug)]
pub struct Schema {
    fds: Vec<Field>,
    indices: Vec<Index>,
}

/// Why a schema was refused.
#[derive(Debug)]
pub enum SchemaError {
    /// Two fields have this name.
    DuplicateField(String),
    /// An index names this field, which the schema does not have.
    UnknownField(String),
}

/// An index as the contracts see it.
pub struct IndexView {
    pub name: Seq<char>,
    pub fields: Seq<Seq<char>>,
}

/// A schema as the contracts see it.
pub struct SchemaView {
    pub fields: Seq<Seq<char>>,
    pub indices: Seq<IndexView>,
}

/// A schema error as the contracts see it.
pub enum SchemaErrorView {
    DuplicateField(Seq<char>),
    UnknownField(Seq<char>),
}

/// Whether no name occurs twice.
pub open spec fn distinct(names: Seq<Seq<char>>) -> bool {
    forall|i: int, j: int| 0 <= i < j < names.len() ==> names[i] != names[j]
}

/// Whether position `j` holds the first name that occurred before.
pub open spec fn is_first_duplicate(names: Seq<Seq<char>>, j: int) -> bool {
    &&& 0 <= j < names.len()
    &&& distinct(names.subrange(0, j))
    &&& exists|i: int| 0 <= i < j && names[i] == names[j]
}

/// Whether position `k` of `wanted` holds the first name that is not among `known`.
pub open spec fn is_first_unknown(known: Seq<Seq<char>>, wanted: Seq<Seq<char>>, k: int) -> bool {
    &&& 0 <= k < wanted.len()
    &&& !known.contains(wanted[k])
    &&& forall|m: int| 0 <= m < k ==> known.contains(#[trigger] wanted[m])
}

/// The names of some fields.
pub open spec fn field_names(fields: Seq<Field>) -> Seq<Seq<char>> {
    Seq::new(fields.len(), |i: int| fields[i]@)
}

/// Some strings as sequences of characters.
pub open spec fn string_views(strings: Seq<String>) -> Seq<Seq<char>> {
    Seq::new(strings.len(), |i: int| strings[i]@)
}

/// The text of the first `n` fields: `Field(name)` for each, with `, `
/// between two.
pub open spec fn fields_text(fields: Seq<Seq<char>>, n: int) -> Seq<char>
    decreases n,
{
    if n <= 0 {
        Seq::empty()
    } else if n == 1 {
        "Field("@ + fields[0] + ")"@
    } else {
        fields_text(fields, n - 1) + ", "@ + "Field("@ + fields[n - 1] + ")"@
    }
}

/// The text of the first `n` indices: for each its name and then its fields
/// as a list, with `, ` between two.
pub open spec fn indices_text(indices: Seq<IndexView>, n: int) -> Seq<char>
    decreases n,
{
    if n <= 0 {
        Seq::empty()
    } else if n == 1 {
        indices[0].name + spec_debug_list(indices[0].fields)
    } else {
        indices_text(indices, n - 1) + ", "@ + indices[n - 1].name + spec_debug_list(
            indices[n - 1].fields,
        )
    }
}

/// What the standard library's `Debug` formatting makes of a list of strings.
pub uninterp spec fn spec_debug_list(names: Seq<Seq<char>>) -> Seq<char>;

/// `format!("{:?}", ..)` of a `Vec<String>`: the list as the standard
/// library's `Debug` formatting writes it, brackets, quotes and escapes
/// included. The text depends on the strings alone.
#[verifier::external_body]
fn debug_list(names: &Vec<String>) -> (text: String)
    ensures
        text@ == spec_debug_list(string_views(names@)),
{
    format!("{:?}", names)
}

impl Field {
    /// The name of the field.
    pub closed spec fn view(&self) -> Seq<char> {
        self.name@
    }

    /// A field with the given name.
    pub fn new(name: &str) -> (field: Field)
        ensures
            field@ == name@,
    {
        Field { name: String::from_str(name) }
    }

    /// The name of the field.
    pub fn name(&self) -> (name: &str)
        ensures
            name@ == self@,
    {
        self.name.as_str()
    }

    /// The field as text: `Field(name)`.
    pub fn to_text(&self) -> (text: String)
        ensures
            text@ == "Field("@ + self@ + ")"@,
    {
        let mut text = String::from_str("Field(");
        text.append(self.name.as_str());
        text.append(")");
        text
    }
}

impl Index {
    spec fn view(&self) -> IndexView {
        IndexView { name: self.name@, fields: string_views(self.fds@) }
    }
}

impl SchemaError {
    /// The kind of the error and the name it is about.
    pub open spec fn view(&self) -> SchemaErrorView {
        match self {
            SchemaError::DuplicateField(name) => SchemaErrorView::DuplicateField(name@),
            SchemaError::UnknownField(name) => SchemaErrorView::UnknownField(name@),
        }
    }

    /// The text of a [`SchemaError`].
    pub open spec fn spec_message(&self) -> Seq<char> {
        match self {
            SchemaError::DuplicateField(name) => "Schema should contain unique fd names only, "@
                + name@ + " is duplicated"@,
            SchemaError::UnknownField(name) => "Unknown field name "@ + name@ + " to create index"@,
        }
    }

    /// A sentence that says what is wrong.
    pub fn message(&self) -> (text: String)
        ensures
            text@ == self.spec_message(),
    {
        match self {
            SchemaError::DuplicateField(name) => {
                let mut text = String::from_str("Schema should contain unique fd names only, ");
                text.append(name.as_str());
                text.append(" is duplicated");
                text
            },
            SchemaError::UnknownField(name) => {
                let mut text = String::from_str("Unknown field name ");
                text.append(name.as_str());
                text.append(" to create index");
                text
            },
        }
    }
}

impl SchemaView {
    /// The invariant of a schema: no two fields and no two indices share a
    /// name, and every index is over fields of the schema.
    pub open spec fn wf(self) -> bool {
        &&& distinct(self.fields)
        &&& forall|i: int, j: int|
            0 <= i < j < self.indices.len() ==> self.indices[i].name != self.indices[j].name
        &&& forall|i: int, k: int|
            0 <= i < self.indices.len() && 0 <= k < self.indices[i].fields.len()
                ==> self.fields.contains(#[trigger] self.indices[i].fields[k])
    }

    /// Whether the schema has an index called `name`.
    pub open spec fn has_index(self, name: Seq<char>) -> bool {
        exists|i: int| 0 <= i < self.indices.len() && #[trigger] self.indices[i].name == name
    }

    /// The position of the index called `name`.
    pub open spec fn index_of(self, name: Seq<char>) -> int
        recommends
            self.has_index(name),
    {
        choose|i: int| 0 <= i < self.indices.len() && #[trigger] self.indices[i].name == name
    }

    /// This schema with the index `name` over `fields`: in place of the
    /// index of that name, if there is one, and behind the others if not.
    pub open spec fn spec_with_index(self, name: Seq<char>, fields: Seq<Seq<char>>) -> SchemaView {
        let index = IndexView { name, fields };
        SchemaView {
            fields: self.fields,
            indices: if self.has_index(name) {
                self.indices.update(self.index_of(name), index)
            } else {
                self.indices.push(index)
            },
        }
    }

    /// The schema as text: the fields and then the indices between brackets.
    pub open spec fn spec_text(self) -> Seq<char> {
        "["@ + fields_text(self.fields, self.fields.len() as int) + indices_text(
            self.indices,
            self.indices.len() as int,
        ) + "]"@
    }
}

impl Schema {
    /// The fields and the indices of the schema.
    pub closed spec fn view(&self) -> SchemaView {
        SchemaView {
            fields: field_names(self.fds@),
            indices: Seq::new(self.indices@.len(), |i: int| self.indices@[i]@),
        }
    }

    /// The invariant of a schema. Every schema that this module hands out
    /// satisfies it.
    pub open spec fn wf(&self) -> bool {
        self@.wf()
    }

    /// A schema of the given fields, without indices. Refused when two
    /// fields share a name; the error carries the first name that is given a
    /// second time.
    pub fn from(fds: Vec<Field>) -> (r: Result<Schema, SchemaError>)
        ensures
            r is Ok <==> distinct(field_names(fds@)),
            match r {
                Ok(schema) => schema.wf() && schema@ == (SchemaView {
                    fields: field_names(fds@),
                    indices: Seq::empty(),
                }),
                Err(e) => exists|j: int| #[trigger]
                    is_first_duplicate(field_names(fds@), j) && e@
                        == SchemaErrorView::DuplicateField(field_names(fds@)[j]),
            },
    {
        let ghost names = field_names(fds@);
        let n = fds.len();
        for j in 0..n
            invariant
                n == fds@.len(),
                names == field_names(fds@),
                distinct(names.subrange(0, j as int)),
        {
            for i in 0..j
                invariant
                    n == fds@.len(),
                    j < n,
                    names == field_names(fds@),
                    distinct(names.subrange(0, j as int)),
                    forall|a: int| 0 <= a < i ==> names[a] != names[j as int],
            {
                if fds[i].name == fds[j].name {
                    proof {
                        assert(names[i as int] == names[j as int]);
                        assert(is_first_duplicate(names, j as int));
                        assert(!distinct(names));
                    }
                    return Err(SchemaError::DuplicateField(fds[j].name.clone()));
                }
                assert(names[i as int] != names[j as int]);
            }
            proof {
                let seen = names.subrange(0, j as int);
                let next = names.subrange(0, j + 1);
                assert forall|a: int, b: int| 0 <= a < b < next.len() implies next[a] != next[b] by {
                    if b < j {
                        assert(seen[a] != seen[b]);
                    }
                }
            }
        }
        assert(names.subrange(0, n as int) =~= names);
        let schema = Schema { fds, indices: Vec::new() };
        assert(schema@.indices =~= Seq::empty());
        Ok(schema)
    }

    /// Whether the schema has a field called `name`.
    pub fn has_field(&self, name: &String) -> (found: bool)
        ensures
            found == self@.fields.contains(name@),
    {
        let n = self.fds.len();
        for i in 0..n
            invariant
                n == self.fds@.len(),
                forall|a: int| 0 <= a < i ==> self@.fields[a] != name@,
        {
            if self.fds[i].name == *name {
                assert(self@.fields[i as int] == name@);
                return true;
            }
            assert(self@.fields[i as int] != name@);
        }
        false
    }

    /// The position of the index called `name`, if there is one.
    fn find_index(&self, name: &String) -> (found: Option<usize>)
        ensures
            match found {
                Some(i) => i < self@.indices.len() && self@.indices[i as int].name == name@,
                None => !self@.has_index(name@),
            },
    {
        let n = self.indices.len();
        for i in 0..n
            invariant
                n == self.indices@.len(),
                forall|a: int| 0 <= a < i ==> self@.indices[a].name != name@,
        {
            if self.indices[i].name == *name {
                assert(self@.indices[i as int].name == name@);
                return Some(i);
            }
            assert(self@.indices[i as int].name != name@);
        }
        None
    }

    /// This schema with an index called `name` over the fields `fds`. An
    /// index of that name that the schema has is replaced. Refused when
    /// `fds` names a field that the schema does not have; the error carries
    /// the first such name.
    pub fn with_index(self, name: String, fds: Vec<String>) -> (r: Result<Schema, SchemaError>)
        requires
            self.wf(),
        ensures
            r is Ok <==> forall|k: int|
                0 <= k < fds@.len() ==> self@.fields.contains(#[trigger] string_views(fds@)[k]),
            match r {
                Ok(schema) => schema.wf() && schema@ == self@.spec_with_index(
                    name@,
                    string_views(fds@),
                ),
                Err(e) => exists|k: int| #[trigger]
                    is_first_unknown(self@.fields, string_views(fds@), k) && e@
                        == SchemaErrorView::UnknownField(string_views(fds@)[k]),
            },
    {
        let ghost wanted = string_views(fds@);
        let n = fds.len();
        for k in 0..n
            invariant
                n == fds@.len(),
                wanted == string_views(fds@),
                forall|m: int| 0 <= m < k ==> self@.fields.contains(#[trigger] wanted[m]),
        {
            if !self.has_field(&fds[k]) {
                proof {
                    assert(wanted[k as int] == fds@[k as int]@);
                    assert(is_first_unknown(self@.fields, wanted, k as int));
                }
                return Err(SchemaError::UnknownField(fds[k].clone()));
            }
            assert(wanted[k as int] == fds@[k as int]@);
        }
        let found = self.find_index(&name);
        let ghost before = self@;
        let ghost index = IndexView { name: name@, fields: wanted };
        let mut schema = self;
        match found {
            Some(i) => {
                proof {
                    let c = before.index_of(name@);
                    if c < i {
                        assert(before.indices[c].name != before.indices[i as int].name);
                    } else if i < c {
                        assert(before.indices[i as int].name != before.indices[c].name);
                    }
                }
                schema.indices.set(i, Index { name, fds });
                assert(schema@.indices =~= before.indices.update(i as int, index));
            },
            None => {
                schema.indices.push(Index { name, fds });
                assert(schema@.indices =~= before.indices.push(index));
            },
        }
        proof {
            assert(schema@.fields =~= before.fields);
            let after = schema@;
            assert forall|i: int, j: int| 0 <= i < j < after.indices.len() implies after.indices[i].name
                != after.indices[j].name by {
                if found is Some || j < before.indices.len() {
                    assert(before.indices[i].name != before.indices[j].name);
                } else {
                    assert(before.indices[i].name != name@);
                }
            }
            assert forall|i: int, k: int|
                0 <= i < after.indices.len() && 0 <= k < after.indices[i].fields.len()
                    implies after.fields.contains(#[trigger] after.indices[i].fields[k]) by {
                if after.indices[i] == index {
                    assert(before.fields.contains(wanted[k]));
                } else {
                    assert(before.fields.contains(before.indices[i].fields[k]));
                }
            }
        }
        Ok(schema)
    }

    /// The schema as text: between brackets the fields, `Field(name)` each
    /// and `, ` between two, and then the indices, each its name followed by
    /// the list of its fields, with `, ` between two.
    pub fn to_text(&self) -> (text: String)
        ensures
            text@ == self@.spec_text(),
    {
        let mut text = String::from_str("[");
        let n = self.fds.len();
        for i in 0..n
            invariant
                n == self.fds@.len(),
                text@ == "["@ + fields_text(self@.fields, i as int),
        {
            let ghost before = text@;
            if i != 0 {
                text.append(", ");
            }
            let field = self.fds[i].to_text();
            text.append(field.as_str());
            proof {
                assert(self@.fields[i as int] == self.fds@[i as int]@);
                assert(text@ =~= "["@ + fields_text(self@.fields, i + 1));
            }
        }
        let m = self.indices.len();
        let ghost fields = text@;
        assert(text@ =~= fields + indices_text(self@.indices, 0));
        for i in 0..m
            invariant
                m == self.indices@.len(),
                text@ == fields + indices_text(self@.indices, i as int),
        {
            if i != 0 {
                text.append(", ");
            }
            text.append(self.indices[i].name.as_str());
            let list = debug_list(&self.indices[i].fds);
            text.append(list.as_str());
            proof {
                assert(self@.indices[i as int] == self.indices@[i as int]@);
                assert(text@ =~= fields + indices_text(self@.indices, i + 1));
            }
        }
        text.append("]");
        assert(text@ =~= self@.spec_text());
        text
    }

    /// The number of fields.
    pub fn field_count(&self) -> (n: usize)
        ensures
            n == self@.fields.len(),
    {
        self.fds.len()
    }
}

} // verus!
