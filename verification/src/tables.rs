//! The built-in key-order tables.

use vstd::prelude::*;

verus! {

/// The table name whose entries order the document root.
pub const ROOT: &'static str = "root";

/// Keys whose table orders the children of the mapping, never the mapping's own entries.
pub const CHILD_ROLE_KEYS: [&'static str; 3] = ["responses", "schemas", "properties"];

/// The names of the built-in tables.
pub const TABLE_NAMES: [&'static str; 15] = [
    "root",
    "get",
    "query",
    "post",
    "put",
    "patch",
    "delete",
    "parameters",
    "requestBody",
    "responses",
    "content",
    "components",
    "schema",
    "schemas",
    "properties",
];

/// An empty table: every key is unranked, so the mapping is ordered purely
/// case-insensitively. It is also `content`'s real table.
///
/// NOTE: an empty table is not the same as "no table". No table means keep source order;
/// an empty table means alphabetical.
pub fn alphabetical() -> (table: &'static [&'static str])
    ensures
        table@.len() == 0,
{
    &[]
}

/// The table shared by every HTTP method.
pub open spec fn operation_entries() -> Seq<Seq<char>> {
    seq![
        "operationId"@,
        "summary"@,
        "description"@,
        "parameters"@,
        "requestBody"@,
        "responses"@,
    ]
}

/// The table `schema` and `schemas` share.
pub open spec fn schema_entries() -> Seq<Seq<char>> {
    seq!["description"@, "type"@, "items"@, "properties"@, "format"@, "example"@, "default"@]
}

/// The names of the built-in tables.
pub open spec fn table_names() -> Seq<Seq<char>> {
    seq![
        "root"@,
        "get"@,
        "query"@,
        "post"@,
        "put"@,
        "patch"@,
        "delete"@,
        "parameters"@,
        "requestBody"@,
        "responses"@,
        "content"@,
        "components"@,
        "schema"@,
        "schemas"@,
        "properties"@,
    ]
}

/// The built-in table named `key`, as the sequence of its entries.
pub open spec fn builtin_entries(key: Seq<char>) -> Option<Seq<Seq<char>>> {
    if key == "root"@ {
        Some(
            seq![
                "openapi"@,
                "info"@,
                "servers"@,
                "paths"@,
                "components"@,
                "tags"@,
                "x-tagGroups"@,
                "externalDocs"@,
            ],
        )
    } else if key == "get"@ || key == "query"@ || key == "post"@ || key == "put"@ || key
        == "patch"@ || key == "delete"@ {
        Some(operation_entries())
    } else if key == "parameters"@ {
        Some(seq!["name"@, "in"@, "description"@, "required"@, "schema"@])
    } else if key == "requestBody"@ {
        Some(seq!["description"@, "required"@, "content"@])
    } else if key == "responses"@ {
        Some(seq!["description"@, "headers"@, "content"@, "links"@])
    } else if key == "content"@ {
        Some(Seq::empty())
    } else if key == "components"@ {
        Some(seq!["parameters"@, "schemas"@, "mediaTypes"@])
    } else if key == "schema"@ || key == "schemas"@ {
        Some(schema_entries())
    } else if key == "properties"@ {
        Some(
            seq![
                "description"@,
                "type"@,
                "items"@,
                "format"@,
                "example"@,
                "default"@,
                "enum"@,
            ],
        )
    } else {
        None
    }
}

/// A field-order table: the ranked keys for one mapping.
///
/// Two representations, because the built-ins are string slices while a user's `keyOrder`
/// arrives as owned strings. A table is only ever asked for a key's rank.
///
/// An empty table of either kind means "order alphabetically", which is not the same as having
/// no table at all ("keep source order").
#[derive(Debug, Clone, Copy, PartialEq, Eq)]
pub enum Table<'a> {
    /// A table of string slices: the built-ins.
    Builtin(&'a [&'a str]),
    /// A `keyOrder` override.
    User(&'a [String]),
}

impl<'a> View for Table<'a> {
    type V = Seq<Seq<char>>;

    /// The table's entries, as character sequences.
    open spec fn view(&self) -> Seq<Seq<char>> {
        match *self {
            Table::Builtin(entries) => entries.deep_view(),
            Table::User(entries) => entries.deep_view(),
        }
    }
}

/// The position of the first entry equal to `key`, or `None` when no entry is.
pub open spec fn position_of(entries: Seq<Seq<char>>, key: Seq<char>) -> Option<int>
    decreases entries.len(),
{
    if entries.len() == 0 {
        None
    } else if entries[0] == key {
        Some(0)
    } else {
        match position_of(entries.drop_first(), key) {
            Some(i) => Some(i + 1),
            None => None,
        }
    }
}

/// `position_of` is the first index holding `key`.
pub proof fn lemma_position_of(entries: Seq<Seq<char>>, key: Seq<char>, i: int)
    requires
        0 <= i <= entries.len(),
        forall|j: int| 0 <= j < i ==> entries[j] != key,
    ensures
        i < entries.len() && entries[i] == key ==> position_of(entries, key) == Some(i),
        i == entries.len() ==> position_of(entries, key) is None,
    decreases i,
{
    if i > 0 {
        lemma_position_of(entries.drop_first(), key, i - 1);
    }
}

/// Where `position_of` answers, the entry there is `key` and none before it is.
pub proof fn lemma_position_of_found(entries: Seq<Seq<char>>, key: Seq<char>)
    ensures
        match position_of(entries, key) {
            Some(i) => 0 <= i < entries.len() && entries[i] == key && forall|j: int|
                0 <= j < i ==> entries[j] != key,
            None => forall|j: int| 0 <= j < entries.len() ==> entries[j] != key,
        },
    decreases entries.len(),
{
    if entries.len() > 0 {
        lemma_position_of_found(entries.drop_first(), key);
        assert forall|j: int| 1 <= j < entries.len() implies entries[j] == entries.drop_first()[j
            - 1] by {}
    }
}

/// The rank a table gives `key`: its position, or `None` when the table does not name it.
pub open spec fn rank_of(entries: Seq<Seq<char>>, key: Seq<char>) -> Option<u32> {
    match position_of(entries, key) {
        Some(i) => Some(i as u32),
        None => None,
    }
}

/// Whether ranking `key` against `entries` stays within `u32`.
pub open spec fn rank_fits(entries: Seq<Seq<char>>, key: Seq<char>) -> bool {
    match position_of(entries, key) {
        Some(i) => i <= u32::MAX,
        None => true,
    }
}

impl<'a> Table<'a> {
    /// The position of `key`, or `None` when this table does not name it.
    ///
    /// Case-sensitive and exact: a table names a key or it does not. Case-insensitivity belongs
    /// to the comparison of unranked keys, which is a different question.
    pub fn rank(&self, key: &str) -> (rank: Option<u32>)
        requires
            rank_fits(self@, key@),
        ensures
            rank == rank_of(self@, key@),
    {
        let len = match self {
            Table::Builtin(entries) => entries.len(),
            Table::User(entries) => entries.len(),
        };
        let mut i: usize = 0;
        while i < len
            invariant
                len == self@.len(),
                i <= len,
                rank_fits(self@, key@),
                forall|j: int| 0 <= j < i ==> self@[j] != key@,
            decreases len - i,
        {
            let found = match self {
                Table::Builtin(entries) => entries[i].eq(key),
                Table::User(entries) => entries[i].as_str().eq(key),
            };
            if found {
                proof {
                    lemma_position_of(self@, key@, i as int);
                }
                return Some(i as u32);
            }
            i = i + 1;
        }
        proof {
            lemma_position_of(self@, key@, i as int);
        }
        None
    }
}

impl<'a> Table<'a> {
    /// Which table this is, named by its first entry, or `<alphabetical>` for an empty table.
    ///
    /// Only for telling tables apart: nothing in the ordering reads a table's contents, it only
    /// ranks against them.
    pub fn describe(self) -> (name: &'a str)
        ensures
            self@.len() > 0 ==> name@ == self@[0],
            self@.len() == 0 ==> name@ == "<alphabetical>"@,
    {
        match self {
            Table::Builtin(entries) => {
                if entries.len() > 0 {
                    entries[0]
                } else {
                    "<alphabetical>"
                }
            },
            Table::User(entries) => {
                if entries.len() > 0 {
                    entries[0].as_str()
                } else {
                    "<alphabetical>"
                }
            },
        }
    }
}

/// Every built-in table name is distinct, and each names a table.
pub proof fn lemma_table_names()
    ensures
        table_names().len() == 15,
        forall|i: int, j: int| 0 <= i < j < 15 ==> table_names()[i] != table_names()[j],
        forall|i: int| 0 <= i < 15 ==> builtin_entries(#[trigger] table_names()[i]) is Some,
{
    reveal_strlit("root");
    reveal_strlit("get");
    reveal_strlit("query");
    reveal_strlit("post");
    reveal_strlit("put");
    reveal_strlit("patch");
    reveal_strlit("delete");
    reveal_strlit("parameters");
    reveal_strlit("requestBody");
    reveal_strlit("responses");
    reveal_strlit("content");
    reveal_strlit("components");
    reveal_strlit("schema");
    reveal_strlit("schemas");
    reveal_strlit("properties");
    let names = table_names();
    assert forall|i: int, j: int| 0 <= i < j < 15 implies names[i] != names[j] by {
        assert(names[i].len() != names[j].len() || names[i][0] != names[j][0] || names[i][1]
            != names[j][1] || names[i][2] != names[j][2] || names[i][3] != names[j][3]
            || names[i].last() != names[j].last() || names[i][names[i].len() - 2] != names[j][
            names[j].len() - 2]);
    }
}

/// The built-in tables, entry by entry: every HTTP method ranks `operationId`, `summary`,
/// `description`, `parameters`, `requestBody`, `responses` in that order, `schema` and `schemas`
/// share one table, `content` ranks nothing, and so on for each of the fifteen names.
pub proof fn lemma_builtin_table_contents()
    ensures
        builtin_entries("root"@) == Some(seq!["openapi"@, "info"@, "servers"@, "paths"@, "components"@, "tags"@, "x-tagGroups"@, "externalDocs"@]),
        builtin_entries("get"@) == Some(seq!["operationId"@, "summary"@, "description"@, "parameters"@, "requestBody"@, "responses"@]),
        builtin_entries("query"@) == Some(seq!["operationId"@, "summary"@, "description"@, "parameters"@, "requestBody"@, "responses"@]),
        builtin_entries("post"@) == Some(seq!["operationId"@, "summary"@, "description"@, "parameters"@, "requestBody"@, "responses"@]),
        builtin_entries("put"@) == Some(seq!["operationId"@, "summary"@, "description"@, "parameters"@, "requestBody"@, "responses"@]),
        builtin_entries("patch"@) == Some(seq!["operationId"@, "summary"@, "description"@, "parameters"@, "requestBody"@, "responses"@]),
        builtin_entries("delete"@) == Some(seq!["operationId"@, "summary"@, "description"@, "parameters"@, "requestBody"@, "responses"@]),
        builtin_entries("parameters"@) == Some(seq!["name"@, "in"@, "description"@, "required"@, "schema"@]),
        builtin_entries("requestBody"@) == Some(seq!["description"@, "required"@, "content"@]),
        builtin_entries("responses"@) == Some(seq!["description"@, "headers"@, "content"@, "links"@]),
        builtin_entries("content"@) == Some(Seq::<Seq<char>>::empty()),
        builtin_entries("components"@) == Some(seq!["parameters"@, "schemas"@, "mediaTypes"@]),
        builtin_entries("schema"@) == Some(seq!["description"@, "type"@, "items"@, "properties"@, "format"@, "example"@, "default"@]),
        builtin_entries("schemas"@) == Some(seq!["description"@, "type"@, "items"@, "properties"@, "format"@, "example"@, "default"@]),
        builtin_entries("properties"@) == Some(seq!["description"@, "type"@, "items"@, "format"@, "example"@, "default"@, "enum"@]),
{
    reveal_strlit("root");
    reveal_strlit("get");
    reveal_strlit("query");
    reveal_strlit("post");
    reveal_strlit("put");
    reveal_strlit("patch");
    reveal_strlit("delete");
    reveal_strlit("parameters");
    reveal_strlit("requestBody");
    reveal_strlit("responses");
    reveal_strlit("content");
    reveal_strlit("components");
    reveal_strlit("schema");
    reveal_strlit("schemas");
    reveal_strlit("properties");
    lemma_table_names();
}

/// Every child-role key has a built-in table, so child role can always fire.
pub proof fn lemma_child_role_keys_have_tables()
    ensures
        builtin_entries("responses"@) is Some,
        builtin_entries("schemas"@) is Some,
        builtin_entries("properties"@) is Some,
{
}

/// The view of a built-in table.
pub open spec fn builtin_view(table: &[&str]) -> Seq<Seq<char>> {
    table.deep_view()
}

/// The built-in table for `key`, if any.
pub fn builtin(key: &str) -> (table: Option<&'static [&'static str]>)
    ensures
        match table {
            Some(t) => builtin_entries(key@) == Some(builtin_view(t)),
            None => builtin_entries(key@) is None,
        },
{
    let table: Option<&'static [&'static str]> = if key.eq("root") {
        Some(
            &[
                "openapi",
                "info",
                "servers",
                "paths",
                "components",
                "tags",
                "x-tagGroups",
                "externalDocs",
            ],
        )
    } else if key.eq("get") || key.eq("query") || key.eq("post") || key.eq("put") || key.eq(
        "patch",
    ) || key.eq("delete") {
        Some(&["operationId", "summary", "description", "parameters", "requestBody", "responses"])
    } else if key.eq("parameters") {
        Some(&["name", "in", "description", "required", "schema"])
    } else if key.eq("requestBody") {
        Some(&["description", "required", "content"])
    } else if key.eq("responses") {
        Some(&["description", "headers", "content", "links"])
    } else if key.eq("content") {
        Some(alphabetical())
    } else if key.eq("components") {
        Some(&["parameters", "schemas", "mediaTypes"])
    } else if key.eq("schema") || key.eq("schemas") {
        Some(&["description", "type", "items", "properties", "format", "example", "default"])
    } else if key.eq("properties") {
        Some(&["description", "type", "items", "format", "example", "default", "enum"])
    } else {
        None
    };
    proof {
        if let Some(t) = table {
            assert(builtin_entries(key@) == Some(builtin_view(t)));
        }
    }
    table
}

} // verus!
