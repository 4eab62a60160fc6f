//! The query that reads a table.

use vstd::prelude::*;
use vstd::string::*;

use crate::error;
use crate::text;

verus! {

/// The type of a column, as far as it matters here.
#[derive(Debug)]
pub struct ColumnType {
    pub nullable: bool,
}

/// A column that a relation declares.
#[derive(Debug)]
pub struct Field {
    /// The name as it is written in SQL.
    pub sql_name: String,
    pub columntype: ColumnType,
    /// The default value, as it is written in SQL.
    pub default: Option<String>,
    /// Whether nothing in the program reads the column.
    pub unused: bool,
}

/// A property of a relation.
#[derive(Debug)]
pub struct Property {
    pub key: String,
    pub value: String,
}

/// A relation that is read from Snowflake.
#[derive(Debug)]
pub struct Relation {
    /// The name as it is shown.
    pub name: String,
    pub fields: Vec<Field>,
    /// The properties; no key stands there twice.
    pub properties: Vec<Property>,
}

/// Why there is no query.
#[derive(Debug)]
pub enum QueryError {
    /// The table's name is blank.
    EmptyTable,
    /// There is no column to read.
    NoColumns { relation: String },
    /// The filter is blank.
    EmptyFilter,
}

impl QueryError {
    /// The text that is shown for the error.
    pub open spec fn text(self) -> Seq<char> {
        match self {
            QueryError::EmptyTable => "Snowflake table name must not be empty"@,
            QueryError::NoColumns { relation } =>
                "Snowflake snapshot query for input relation '"@ + relation@
                + "' has no columns to read"@,
            QueryError::EmptyFilter =>
                "Snowflake snapshot filter must not be empty when specified"@,
        }
    }

    /// The text that is shown for the error.
    pub fn message(&self) -> (r: String)
        ensures
            r@ == self.text(),
    {
        match self {
            QueryError::EmptyTable => "Snowflake table name must not be empty".to_owned(),
            QueryError::NoColumns { relation } => error::sentence(
                "Snowflake snapshot query for input relation '",
                relation.as_str(),
                "' has no columns to read",
            ),
            QueryError::EmptyFilter =>
                "Snowflake snapshot filter must not be empty when specified".to_owned(),
        }
    }
}

/// The value of the first property with this key.
pub open spec fn property_value(properties: Seq<Property>, key: Seq<char>) -> Option<Seq<char>>
    decreases properties.len(),
{
    if properties.len() == 0 {
        None
    } else if properties[0].key@ == key {
        Some(properties[0].value@)
    } else {
        property_value(properties.skip(1), key)
    }
}

impl Relation {
    /// The value of a property.
    pub fn get_property(&self, key: &str) -> (r: Option<&str>)
        ensures
            match r {
                Some(value) => property_value(self.properties@, key@) == Some(value@),
                None => property_value(self.properties@, key@) is None,
            },
    {
        let n: usize = self.properties.len();
        let mut i: usize = 0;
        assert(self.properties@.skip(0) =~= self.properties@);
        while i < n
            invariant
                n == self.properties@.len(),
                i <= n,
                property_value(self.properties@, key@) == property_value(
                    self.properties@.skip(i as int),
                    key@,
                ),
            decreases n - i,
        {
            if text::same(self.properties[i].key.as_str(), key) {
                return Some(self.properties[i].value.as_str());
            }
            assert(self.properties@.skip(i as int).skip(1) =~= self.properties@.skip(i + 1));
            i = i + 1;
        }
        None
    }
}

/// Whether unused columns are left out: the reader or the relation asks for it.
pub open spec fn skips_unused(skip_unused_columns: bool, relation: Relation) -> bool {
    skip_unused_columns || property_value(relation.properties@, "skip_unused_columns"@) == Some(
        "true"@,
    )
}

/// Whether a column is read. An unused one that is left out must be nullable or have a
/// default.
pub open spec fn is_read(skip: bool, field: Field) -> bool {
    !skip || !field.unused || (!field.columntype.nullable && field.default is None)
}

/// The names of the columns that are read, in the order of their declaration.
pub open spec fn read_columns(skip: bool, fields: Seq<Field>) -> Seq<Seq<char>>
    decreases fields.len(),
{
    if fields.len() == 0 {
        Seq::empty()
    } else if is_read(skip, fields.last()) {
        read_columns(skip, fields.drop_last()).push(fields.last().sql_name@)
    } else {
        read_columns(skip, fields.drop_last())
    }
}

/// The query that reads columns of a table.
pub open spec fn select_text(columns: Seq<Seq<char>>, table: Seq<char>) -> Seq<char> {
    "SELECT "@ + text::joined(columns, ", "@) + " FROM "@ + table
}

/// The query that reads columns of a table, with the filter if there is one.
pub open spec fn snapshot_text(
    columns: Seq<Seq<char>>,
    table: Seq<char>,
    filter: Option<Seq<char>>,
) -> Seq<char> {
    match filter {
        Some(filter) => select_text(columns, table) + " WHERE "@ + filter,
        None => select_text(columns, table),
    }
}

/// The filter without the white space around it.
pub open spec fn trimmed_filter(filter: Option<&str>) -> Option<Seq<char>> {
    match filter {
        Some(f) => Some(text::trimmed(f@)),
        None => None,
    }
}

/// The names of the columns that are read, in the order of their declaration.
fn columns_to_read(skip: bool, relation: &Relation) -> (columns: Vec<&str>)
    ensures
        columns@.map_values(|c: &str| c@) == read_columns(skip, relation.fields@),
{
    let mut columns: Vec<&str> = Vec::new();
    let n: usize = relation.fields.len();
    let mut i: usize = 0;
    while i < n
        invariant
            n == relation.fields@.len(),
            i <= n,
            columns@.map_values(|c: &str| c@) == read_columns(skip, relation.fields@.take(i as int)),
        decreases n - i,
    {
        let field = &relation.fields[i];
        let ghost before = columns@.map_values(|c: &str| c@);
        assert(relation.fields@.take(i + 1).drop_last() =~= relation.fields@.take(i as int));
        if !skip || !field.unused || (!field.columntype.nullable && field.default.is_none()) {
            columns.push(field.sql_name.as_str());
            assert(columns@.map_values(|c: &str| c@) =~= before.push(field.sql_name@));
        }
        i = i + 1;
    }
    assert(relation.fields@.take(n as int) =~= relation.fields@);
    columns
}

/// The query that reads a table into a relation.
pub fn build_snapshot_query(
    table: &str,
    snapshot_filter: Option<&str>,
    skip_unused_columns: bool,
    relation: &Relation,
) -> (r: Result<String, QueryError>)
    ensures
        ({
            let name = text::trimmed(table@);
            let columns = read_columns(
                skips_unused(skip_unused_columns, *relation),
                relation.fields@,
            );
            let filter = trimmed_filter(snapshot_filter);
            match r {
                Ok(query) => {
                    &&& name.len() > 0
                    &&& columns.len() > 0
                    &&& filter != Some(Seq::<char>::empty())
                    &&& query@ == snapshot_text(columns, name, filter)
                },
                Err(QueryError::EmptyTable) => name.len() == 0,
                Err(QueryError::NoColumns { relation: shown }) => {
                    &&& name.len() > 0
                    &&& columns.len() == 0
                    &&& shown@ == relation.name@
                },
                Err(QueryError::EmptyFilter) => {
                    &&& name.len() > 0
                    &&& columns.len() > 0
                    &&& filter == Some(Seq::<char>::empty())
                },
            }
        }),
{
    let name = text::trim(table);
    if name.is_empty() {
        return Err(QueryError::EmptyTable);
    }
    let asked = match relation.get_property("skip_unused_columns") {
        Some(value) => text::same(value, "true"),
        None => false,
    };
    let columns = columns_to_read(skip_unused_columns || asked, relation);
    if columns.len() == 0 {
        return Err(QueryError::NoColumns { relation: relation.name.clone() });
    }
    let mut query = "SELECT ".to_owned();
    let list = text::join(columns.as_slice(), ", ");
    query.append(list.as_str());
    query.append(" FROM ");
    query.append(name);
    if let Some(filter) = snapshot_filter {
        let condition = text::trim(filter);
        if condition.is_empty() {
            assert(condition@ =~= Seq::<char>::empty());
            return Err(QueryError::EmptyFilter);
        }
        query.append(" WHERE ");
        query.append(condition);
    }
    Ok(query)
}

/// Unless unused columns are left out, all columns are read, in order.
pub proof fn law_all_columns_are_read_by_default(fields: Seq<Field>)
    ensures
        read_columns(false, fields) == fields.map_values(|field: Field| field.sql_name@),
    decreases fields.len(),
{
    if fields.len() > 0 {
        law_all_columns_are_read_by_default(fields.drop_last());
        assert(fields.map_values(|field: Field| field.sql_name@)
            =~= fields.drop_last().map_values(|field: Field| field.sql_name@).push(
            fields.last().sql_name@,
        ));
    } else {
        assert(fields.map_values(|field: Field| field.sql_name@) =~= Seq::<Seq<char>>::empty());
    }
}

/// The columns that are read are those declared, without the ones that need not be read.
pub proof fn law_columns_are_the_declared_ones(skip: bool, fields: Seq<Field>)
    ensures
        read_columns(skip, fields) == fields.filter(|field: Field| is_read(skip, field)).map_values(
            |field: Field| field.sql_name@,
        ),
    decreases fields.len(),
{
    let kept = |field: Field| is_read(skip, field);
    let named = |field: Field| field.sql_name@;
    reveal(Seq::filter);
    if fields.len() > 0 {
        let front = fields.drop_last();
        law_columns_are_the_declared_ones(skip, front);
        if kept(fields.last()) {
            assert(fields.filter(kept) == front.filter(kept).push(fields.last()));
            assert(fields.filter(kept).map_values(named) =~= front.filter(kept).map_values(
                named,
            ).push(named(fields.last())));
        }
    } else {
        assert(fields.filter(kept).map_values(named) =~= Seq::<Seq<char>>::empty());
    }
}

/// A column that the program uses, or that must be given a value, is always read.
pub proof fn law_needed_columns_are_read(skip: bool, fields: Seq<Field>, i: int)
    requires
        0 <= i < fields.len(),
        !fields[i].unused || (!fields[i].columntype.nullable && fields[i].default is None),
    ensures
        read_columns(skip, fields).contains(fields[i].sql_name@),
    decreases fields.len(),
{
    let front = fields.drop_last();
    let columns = read_columns(skip, fields);
    if i == fields.len() - 1 {
        assert(columns.last() == fields[i].sql_name@);
    } else {
        law_needed_columns_are_read(skip, front, i);
        let k = choose|k: int|
            0 <= k < read_columns(skip, front).len() && read_columns(skip, front)[k]
                == fields[i].sql_name@;
        assert(columns[k] == fields[i].sql_name@);
    }
}

/// It makes no difference whether the reader or the relation asks to leave out unused
/// columns.
pub proof fn law_reader_and_relation_ask_alike(a: Relation, b: Relation)
    requires
        property_value(b.properties@, "skip_unused_columns"@) == Some("true"@),
    ensures
        skips_unused(true, a) == skips_unused(false, b),
{
}

/// Properties of which no two have the same key.
pub open spec fn have_distinct_keys(properties: Seq<Property>) -> bool {
    forall|i: int, j: int|
        0 <= i < j < properties.len() ==> (#[trigger] properties[i]).key@ != (
        #[trigger] properties[j]).key@
}

/// Every property is found under its key.
pub proof fn law_every_property_is_found(properties: Seq<Property>, i: int)
    requires
        have_distinct_keys(properties),
        0 <= i < properties.len(),
    ensures
        property_value(properties, properties[i].key@) == Some(properties[i].value@),
    decreases properties.len(),
{
    if i > 0 {
        let rest = properties.skip(1);
        assert(have_distinct_keys(rest)) by {
            assert forall|k: int, l: int| 0 <= k < l < rest.len() implies (
            #[trigger] rest[k]).key@ != (#[trigger] rest[l]).key@ by {
                assert(rest[k] == properties[k + 1] && rest[l] == properties[l + 1]);
            }
        }
        law_every_property_is_found(rest, i - 1);
        assert(properties[0].key@ != properties[i].key@);
    }
}

/// The value of a property is that of the first one with its key.
pub proof fn law_first_property_counts(properties: Seq<Property>, key: Seq<char>)
    ensures
        match property_value(properties, key) {
            Some(value) => exists|i: int|
                0 <= i < properties.len() && (#[trigger] properties[i]).key@ == key
                    && properties[i].value@ == value && forall|j: int|
                    0 <= j < i ==> (#[trigger] properties[j]).key@ != key,
            None => forall|j: int|
                0 <= j < properties.len() ==> (#[trigger] properties[j]).key@ != key,
        },
    decreases properties.len(),
{
    if properties.len() > 0 && properties[0].key@ != key {
        let rest = properties.skip(1);
        law_first_property_counts(rest, key);
        match property_value(properties, key) {
            Some(value) => {
                let i = choose|i: int|
                    0 <= i < rest.len() && (#[trigger] rest[i]).key@ == key && rest[i].value@
                        == value && forall|j: int|
                        0 <= j < i ==> (#[trigger] rest[j]).key@ != key;
                assert(properties[i + 1] == rest[i]);
                assert forall|j: int| 0 <= j < i + 1 implies (#[trigger] properties[j]).key@
                    != key by {
                    if j > 0 {
                        assert(rest[j - 1] == properties[j]);
                    }
                }
            },
            None => {
                assert forall|j: int| 0 <= j < properties.len() implies (
                #[trigger] properties[j]).key@ != key by {
                    if j > 0 {
                        assert(rest[j - 1] == properties[j]);
                    }
                }
            },
        }
    }
}

/// The names of the columns that are not to be left out. A column may be left out if that
/// is asked for, nothing reads it, and it can do without a value.
spec fn wanted_names(asked: bool, fields: Seq<Field>) -> Seq<Seq<char>> {
    fields.filter(
        |field: Field|
            !(asked && field.unused && (field.columntype.nullable || field.default is Some)),
    ).map_values(|field: Field| field.sql_name@)
}

/// The columns that are read are the wanted ones.
proof fn lemma_wanted_names(asked: bool, fields: Seq<Field>)
    ensures
        read_columns(asked, fields) == wanted_names(asked, fields),
    decreases fields.len(),
{
    let kept = |field: Field|
        !(asked && field.unused && (field.columntype.nullable || field.default is Some));
    let named = |field: Field| field.sql_name@;
    reveal(Seq::filter);
    if fields.len() > 0 {
        let front = fields.drop_last();
        lemma_wanted_names(asked, front);
        if kept(fields.last()) {
            assert(fields.filter(kept) == front.filter(kept).push(fields.last()));
            assert(fields.filter(kept).map_values(named) =~= front.filter(kept).map_values(
                named,
            ).push(named(fields.last())));
        } else {
            assert(fields.filter(kept) == front.filter(kept));
        }
    } else {
        assert(fields.filter(kept).map_values(named) =~= Seq::<Seq<char>>::empty());
    }
}

/// Whether unused columns are left out: the reader asks for it, or the first property
/// `skip_unused_columns` of the relation is `true`.
spec fn asks_to_skip(skip_unused_columns: bool, relation: Relation) -> bool {
    skip_unused_columns || exists|i: int|
        {
            &&& 0 <= i < relation.properties@.len()
            &&& (#[trigger] relation.properties@[i]).key@ == "skip_unused_columns"@
            &&& relation.properties@[i].value@ == "true"@
            &&& forall|j: int|
                0 <= j < i ==> (#[trigger] relation.properties@[j]).key@ != "skip_unused_columns"@
        }
}

proof fn lemma_asks_to_skip(skip_unused_columns: bool, relation: Relation)
    ensures
        skips_unused(skip_unused_columns, relation) == asks_to_skip(
            skip_unused_columns,
            relation,
        ),
{
    let key = "skip_unused_columns"@;
    law_first_property_counts(relation.properties@, key);
    if property_value(relation.properties@, key) is Some {
        let value = property_value(relation.properties@, key)->0;
        let i = choose|i: int|
            0 <= i < relation.properties@.len() && (#[trigger] relation.properties@[i]).key@ == key
                && relation.properties@[i].value@ == value && forall|j: int|
                0 <= j < i ==> (#[trigger] relation.properties@[j]).key@ != key;
        if asks_to_skip(false, relation) {
            let l = choose|l: int|
                {
                    &&& 0 <= l < relation.properties@.len()
                    &&& (#[trigger] relation.properties@[l]).key@ == key
                    &&& relation.properties@[l].value@ == "true"@
                    &&& forall|j: int|
                        0 <= j < l ==> (#[trigger] relation.properties@[j]).key@ != key
                };
            assert(i == l);
        }
    }
}

/// The query lists the name of every wanted column, once and in order, with `, ` in each
/// gap and nothing else, between `SELECT ` and ` FROM `. A column is wanted unless that is
/// asked for, nothing reads it, and it can do without a value. Then come the table and,
/// behind ` WHERE `, the filter if there is one, both without the white space around them.
pub proof fn law_query_lists_the_wanted_columns(
    table: &str,
    filter: Option<&str>,
    skip: bool,
    relation: &Relation,
    query: String,
    asked: bool,
    names: Seq<Seq<char>>,
)
    requires
        call_ensures(build_snapshot_query, (table, filter, skip, relation), Ok(query)),
        asked == (skip || exists|i: int|
            {
                &&& 0 <= i < relation.properties@.len()
                &&& (#[trigger] relation.properties@[i]).key@ == "skip_unused_columns"@
                &&& relation.properties@[i].value@ == "true"@
                &&& forall|j: int|
                    0 <= j < i ==> (#[trigger] relation.properties@[j]).key@
                        != "skip_unused_columns"@
            }),
        names == relation.fields@.filter(
            |field: Field|
                !(asked && field.unused && (field.columntype.nullable || field.default is Some)),
        ).map_values(|field: Field| field.sql_name@),
    ensures
        ({
            let end = 7 + text::offset_of(names, 2, names.len() as int) - 2;
            let shown = text::trimmed(table@);
            &&& names.len() > 0
            &&& text::occurs_at(query@, "SELECT "@, 0)
            &&& forall|k: int|
                0 <= k < names.len() ==> text::occurs_at(
                    query@,
                    #[trigger] names[k],
                    7 + text::offset_of(names, 2, k),
                )
            &&& forall|k: int|
                0 <= k < names.len() - 1 ==> text::occurs_at(
                    query@,
                    ", "@,
                    7 + text::offset_of(names, 2, k) + (#[trigger] names[k]).len(),
                )
            &&& text::occurs_at(query@, " FROM "@, end)
            &&& text::occurs_at(query@, shown, end + 6)
            &&& match filter {
                Some(f) => {
                    &&& text::occurs_at(query@, " WHERE "@, end + 6 + shown.len())
                    &&& text::occurs_at(query@, text::trimmed(f@), end + 13 + shown.len())
                    &&& query@.len() == end + 13 + shown.len() + text::trimmed(f@).len()
                },
                None => query@.len() == end + 6 + shown.len(),
            }
        }),
{
    let shown = text::trimmed(table@);
    assert(asked == asks_to_skip(skip, *relation));
    assert(names == wanted_names(asked, relation.fields@));
    lemma_asks_to_skip(skip, *relation);
    lemma_wanted_names(asks_to_skip(skip, *relation), relation.fields@);
    reveal_strlit("SELECT ");
    reveal_strlit(", ");
    reveal_strlit(" FROM ");
    reveal_strlit(" WHERE ");
    assert("SELECT "@.len() == 7 && ", "@.len() == 2);
    assert(" FROM "@.len() == 6 && " WHERE "@.len() == 7);
    let list = text::joined(names, ", "@);
    text::law_joined_parts_stand_in_order(names, ", "@, 0);
    let end = 7 + list.len() as int;
    assert(query@ == snapshot_text(names, shown, trimmed_filter(filter)));
    assert(query@.subrange(0, 7) =~= "SELECT "@);
    assert(query@.subrange(7, end) =~= list);
    assert forall|k: int| 0 <= k < names.len() implies text::occurs_at(
        query@,
        #[trigger] names[k],
        7 + text::offset_of(names, 2, k),
    ) by {
        text::law_joined_parts_stand_in_order(names, ", "@, k);
        lemma_occurs_inside(query@, list, 7, names[k], text::offset_of(names, 2, k));
    }
    assert forall|k: int| 0 <= k < names.len() - 1 implies text::occurs_at(
        query@,
        ", "@,
        7 + text::offset_of(names, 2, k) + (#[trigger] names[k]).len(),
    ) by {
        text::law_joined_parts_stand_in_order(names, ", "@, k);
        lemma_occurs_inside(
            query@,
            list,
            7,
            ", "@,
            text::offset_of(names, 2, k) + names[k].len(),
        );
    }
    assert(query@.subrange(end, end + 6) =~= " FROM "@);
    assert(query@.subrange(end + 6, end + 6 + shown.len()) =~= shown);
    if let Some(f) = filter {
        let at = end + 6 + shown.len();
        assert(query@.subrange(at, at + 7) =~= " WHERE "@);
        assert(query@.subrange(at + 7, at + 7 + text::trimmed(f@).len()) =~= text::trimmed(f@));
    }
}

/// What occurs in a part occurs in the whole.
proof fn lemma_occurs_inside(s: Seq<char>, part: Seq<char>, at: int, inner: Seq<char>, k: int)
    requires
        text::occurs_at(s, part, at),
        text::occurs_at(part, inner, k),
    ensures
        text::occurs_at(s, inner, at + k),
{
    assert(s.subrange(at + k, at + k + inner.len()) =~= part.subrange(k, k + inner.len()));
}

/// There is a query unless the table is blank, no column is wanted or the filter is blank,
/// and then the first of these is reported.
pub proof fn law_query_is_refused_for_a_reason(
    table: &str,
    filter: Option<&str>,
    skip: bool,
    relation: &Relation,
    r: Result<String, QueryError>,
    asked: bool,
    names: Seq<Seq<char>>,
)
    requires
        call_ensures(build_snapshot_query, (table, filter, skip, relation), r),
        asked == (skip || exists|i: int|
            {
                &&& 0 <= i < relation.properties@.len()
                &&& (#[trigger] relation.properties@[i]).key@ == "skip_unused_columns"@
                &&& relation.properties@[i].value@ == "true"@
                &&& forall|j: int|
                    0 <= j < i ==> (#[trigger] relation.properties@[j]).key@
                        != "skip_unused_columns"@
            }),
        names == relation.fields@.filter(
            |field: Field|
                !(asked && field.unused && (field.columntype.nullable || field.default is Some)),
        ).map_values(|field: Field| field.sql_name@),
    ensures
        ({
            let blank = forall|i: int|
                0 <= i < table@.len() ==> text::is_white_space(#[trigger] table@[i]);
            let unfiltered = filter matches Some(f) && forall|i: int|
                0 <= i < f@.len() ==> text::is_white_space(#[trigger] f@[i]);
            match r {
                Err(QueryError::EmptyTable) => blank,
                Err(QueryError::NoColumns { relation: shown }) => !blank && names.len() == 0
                    && shown@ == relation.name@,
                Err(QueryError::EmptyFilter) => !blank && names.len() > 0 && unfiltered,
                Ok(_) => !blank && names.len() > 0 && !unfiltered,
            }
        }),
{
    lemma_asks_to_skip(skip, *relation);
    lemma_wanted_names(asks_to_skip(skip, *relation), relation.fields@);
    text::law_blank_is_trimmed_away(table@);
    if let Some(f) = filter {
        text::law_blank_is_trimmed_away(f@);
        if text::trimmed(f@).len() == 0 {
            assert(text::trimmed(f@) =~= Seq::<char>::empty());
        }
    }
}

/// The text for an error quotes the relation in full.
pub proof fn law_query_error_quotes_the_relation(e: QueryError, m: String)
    requires
        call_ensures(QueryError::message, (&e,), m),
    ensures
        match e {
            QueryError::EmptyTable => m@ == "Snowflake table name must not be empty"@,
            QueryError::NoColumns { relation } => m@
                == "Snowflake snapshot query for input relation '"@ + relation@
                + "' has no columns to read"@,
            QueryError::EmptyFilter => m@
                == "Snowflake snapshot filter must not be empty when specified"@,
        },
{
}

/// The value of a property is that of the first one with its key, in full.
pub proof fn law_property_is_given_in_full(relation: &Relation, key: &str, r: Option<&str>)
    requires
        call_ensures(Relation::get_property, (relation, key), r),
    ensures
        match r {
            Some(value) => exists|i: int|
                {
                    &&& 0 <= i < relation.properties@.len()
                    &&& (#[trigger] relation.properties@[i]).key@ == key@
                    &&& relation.properties@[i].value@ == value@
                    &&& forall|j: int|
                        0 <= j < i ==> (#[trigger] relation.properties@[j]).key@ != key@
                },
            None => forall|j: int|
                0 <= j < relation.properties@.len() ==> (#[trigger] relation.properties@[j]).key@
                    != key@,
        },
{
    law_first_property_counts(relation.properties@, key@);
}

} // verus!
