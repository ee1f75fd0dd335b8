//! Endpoints synthesised from a reflected database schema, the schema's checksum,
//! and the start-up check that the live schema has not drifted.

use vstd::prelude::*;

use crate::endpoint::{
    Endpoint, Endpoints, EndpointError, Execute, HttpMethod, conflicts, has_conflict, route_key,
};
use crate::text::trim_slashes;
use crate::execute::MySQLExecute;
use crate::project::MySQLSchemaDiscoveryMethod;
use crate::text::str_equal;

verus! {

/// One reflected column.
#[derive(Clone, Debug)]
pub struct ColumnInfo {
    pub name: String,
    /// The column's type as the database reports it.
    pub column_type: String,
    pub is_primary: bool,
}

/// One reflected table.
#[derive(Clone, Debug)]
pub struct TableSchema {
    pub name: String,
    pub columns: Vec<ColumnInfo>,
}

/// Why endpoints could not be generated.
#[derive(Clone, Debug)]
pub enum DiscoveryError {
    /// The table has no primary key column.
    MissingPrimaryKey { table: String },
    /// A generated endpoint has the id or key of one generated before it.
    Duplicate { id: String },
}

/// What `str::to_lowercase` makes of a text.
pub uninterp spec fn lower_of(s: Seq<char>) -> Seq<char>;

/// Only ASCII characters.
pub open spec fn is_ascii_text(s: Seq<char>) -> bool {
    forall|i: int| 0 <= i < s.len() ==> (s[i] as u32) < 128
}

/// `s` with its ASCII capitals lowered.
pub open spec fn ascii_lowered(s: Seq<char>) -> Seq<char> {
    Seq::new(s.len(), |i: int| crate::text::ascii_lower(s[i]))
}

/// The lower-case form of a text: ASCII lowering for ASCII text, else what
/// `str::to_lowercase` makes of it.
pub open spec fn lowercase_text(s: Seq<char>) -> Seq<char> {
    if is_ascii_text(s) {
        ascii_lowered(s)
    } else {
        lower_of(s)
    }
}

/// Relies on `str::to_lowercase`: the result depends on the characters alone, and
/// for ASCII text it lowers the ASCII capitals and keeps every other character.
#[verifier::external_body]
pub(crate) fn to_lower(s: &str) -> (r: String)
    ensures
        r@ == lower_of(s@),
        is_ascii_text(s@) ==> r@ == ascii_lowered(s@),
{
    s.to_lowercase()
}

/// `k` is the first primary-key column of `cols`.
pub open spec fn primary_at(cols: Seq<ColumnInfo>, k: int) -> bool {
    0 <= k < cols.len() && cols[k].is_primary && forall|j: int| 0 <= j < k ==> !cols[j].is_primary
}

/// Whether some column of `cols` is a primary key.
pub open spec fn has_primary(cols: Seq<ColumnInfo>) -> bool {
    exists|k: int| 0 <= k < cols.len() && cols[k].is_primary
}

/// The names of the columns that are not primary keys, in order.
pub open spec fn data_columns(cols: Seq<ColumnInfo>) -> Seq<Seq<char>>
    decreases cols.len(),
{
    if cols.len() == 0 {
        Seq::empty()
    } else if cols.last().is_primary {
        data_columns(cols.drop_last())
    } else {
        data_columns(cols.drop_last()).push(cols.last().name@)
    }
}

/// `items` separated by `, `.
pub open spec fn comma_joined(items: Seq<Seq<char>>) -> Seq<char>
    decreases items.len(),
{
    if items.len() == 0 {
        Seq::empty()
    } else if items.len() == 1 {
        items[0]
    } else {
        comma_joined(items.drop_last()) + ", "@ + items.last()
    }
}

/// The client placeholder of a column: `{col}`.
pub open spec fn placeholder(c: Seq<char>) -> Seq<char> {
    "{"@ + c + "}"@
}

/// The assignment of a column in an update: `col = {col}`.
pub open spec fn assignment(c: Seq<char>) -> Seq<char> {
    c + " = {"@ + c + "}"@
}

pub open spec fn placeholders(cols: Seq<Seq<char>>) -> Seq<Seq<char>> {
    Seq::new(cols.len(), |i: int| placeholder(cols[i]))
}

pub open spec fn assignments(cols: Seq<Seq<char>>) -> Seq<Seq<char>> {
    Seq::new(cols.len(), |i: int| assignment(cols[i]))
}

/// The five generated endpoints of a table, in order.
pub enum GeneratedKind {
    GetOne,
    GetMany,
    Post,
    Put,
    Delete,
}

pub open spec fn kind_at(j: int) -> GeneratedKind {
    if j == 0 {
        GeneratedKind::GetOne
    } else if j == 1 {
        GeneratedKind::GetMany
    } else if j == 2 {
        GeneratedKind::Post
    } else if j == 3 {
        GeneratedKind::Put
    } else {
        GeneratedKind::Delete
    }
}

/// The query template generated for a table `t` with primary key `pk` and data
/// columns `cols`.
pub open spec fn generated_query(
    kind: GeneratedKind,
    t: Seq<char>,
    pk: Seq<char>,
    cols: Seq<Seq<char>>,
) -> Seq<char> {
    match kind {
        GeneratedKind::GetOne => "SELECT * FROM "@ + t + " WHERE "@ + pk + " = {id}"@,
        GeneratedKind::GetMany => "SELECT * FROM "@ + t,
        GeneratedKind::Post => "INSERT INTO "@ + t + " ("@ + comma_joined(cols) + ") VALUES ("@
            + comma_joined(placeholders(cols)) + ")"@,
        GeneratedKind::Put => "UPDATE "@ + t + " SET "@ + comma_joined(assignments(cols))
            + " WHERE "@ + pk + " = {id}"@,
        GeneratedKind::Delete => "DELETE FROM "@ + t + " WHERE "@ + pk + " = {id}"@,
    }
}

pub open spec fn generated_method(kind: GeneratedKind) -> HttpMethod {
    match kind {
        GeneratedKind::GetOne => HttpMethod::Get,
        GeneratedKind::GetMany => HttpMethod::Get,
        GeneratedKind::Post => HttpMethod::Post,
        GeneratedKind::Put => HttpMethod::Put,
        GeneratedKind::Delete => HttpMethod::Delete,
    }
}

/// The id suffix and tag of each generated endpoint.
pub open spec fn generated_suffix(kind: GeneratedKind) -> Seq<char> {
    match kind {
        GeneratedKind::GetOne => "_GetOne"@,
        GeneratedKind::GetMany => "_GetMany"@,
        GeneratedKind::Post => "_Post"@,
        GeneratedKind::Put => "_Put"@,
        GeneratedKind::Delete => "_Delete"@,
    }
}

pub open spec fn generated_tag(kind: GeneratedKind) -> Seq<char> {
    match kind {
        GeneratedKind::GetOne => "get_one"@,
        GeneratedKind::GetMany => "get_all"@,
        GeneratedKind::Post => "post"@,
        GeneratedKind::Put => "put"@,
        GeneratedKind::Delete => "delete"@,
    }
}

/// Whether the kind addresses one row (`{table}/{id}`) rather than the table.
pub open spec fn addresses_row(kind: GeneratedKind) -> bool {
    match kind {
        GeneratedKind::GetMany => false,
        GeneratedKind::Post => false,
        _ => true,
    }
}

/// Whether the kind takes the data columns as body parameters.
pub open spec fn takes_columns(kind: GeneratedKind) -> bool {
    match kind {
        GeneratedKind::Post => true,
        GeneratedKind::Put => true,
        _ => false,
    }
}

/// `e` is the endpoint of kind `kind` generated for `table` (primary key `pk`) on
/// database `db`.
pub open spec fn is_generated(
    e: Endpoint,
    table: TableSchema,
    pk: Seq<char>,
    db: Seq<char>,
    kind: GeneratedKind,
) -> bool {
    let t = table.name@;
    let cols = data_columns(table.columns@);
    &&& e.id@ == t + generated_suffix(kind)
    &&& e.method == generated_method(kind)
    &&& e.route@ == (if addresses_row(kind) {
        lowercase_text(t) + "/{id}"@
    } else {
        lowercase_text(t)
    })
    &&& e.version matches Some(v) && v@ == "v1"@
    &&& e.target_database matches Some(d) && d@ == db
    &&& e.execute matches Some(Execute::MySql(m)) && m.query@ == generated_query(
        kind,
        t,
        pk,
        cols,
    )
    &&& e.description is Some
    &&& e.tags@.len() == 2 && e.tags@[0]@ == t && e.tags@[1]@ == generated_tag(kind)
    &&& e.query_params@.len() == 0
    &&& e.body_params@.map_values(|b: String| b@) == (if takes_columns(kind) {
        cols
    } else {
        Seq::empty()
    })
    &&& !e.require_auth
    &&& e.allowed_roles@.len() == 0
    &&& !e.capture_all_params
    &&& !e.inject_user_id
    &&& !e.deprecated
    &&& e.auto_generated
}

/// The first primary-key column of `cols`, if any.
fn find_primary(cols: &Vec<ColumnInfo>) -> (r: Option<usize>)
    ensures
        match r {
            Some(k) => primary_at(cols@, k as int),
            None => !has_primary(cols@),
        },
{
    let mut i: usize = 0;
    while i < cols.len()
        invariant
            i <= cols@.len(),
            forall|j: int| 0 <= j < i ==> !cols@[j].is_primary,
        decreases cols@.len() - i,
    {
        if cols[i].is_primary {
            return Some(i);
        }
        i = i + 1;
    }
    None
}

/// The names of the non-key columns of `cols`.
fn data_column_names(cols: &Vec<ColumnInfo>) -> (r: Vec<String>)
    ensures
        r@.map_values(|s: String| s@) == data_columns(cols@),
{
    let mut r: Vec<String> = Vec::new();
    let mut i: usize = 0;
    proof {
        assert(cols@.subrange(0, 0) =~= Seq::<ColumnInfo>::empty());
        assert(r@.map_values(|s: String| s@) =~= Seq::<Seq<char>>::empty());
    }
    while i < cols.len()
        invariant
            i <= cols@.len(),
            r@.map_values(|s: String| s@) == data_columns(cols@.subrange(0, i as int)),
        decreases cols@.len() - i,
    {
        let ghost before = r@.map_values(|s: String| s@);
        proof {
            let s = cols@.subrange(0, i as int + 1);
            assert(s.drop_last() =~= cols@.subrange(0, i as int));
            assert(s.last() == cols@[i as int]);
        }
        if !cols[i].is_primary {
            r.push(cols[i].name.clone());
            proof {
                assert(r@.map_values(|s: String| s@) =~= before.push(cols@[i as int].name@));
            }
        }
        i = i + 1;
    }
    proof {
        assert(cols@.subrange(0, cols@.len() as int) =~= cols@);
    }
    r
}

/// The items of `items`, each between `open` and `close`, separated by `, `; with
/// `twice` an item is written before `open` too (`c = {c}`).
fn join_columns(items: &Vec<String>, twice: bool) -> (r: String)
    ensures
        r@ == comma_joined(
            if twice {
                assignments(items@.map_values(|s: String| s@))
            } else {
                placeholders(items@.map_values(|s: String| s@))
            },
        ),
{
    let ghost iv = items@.map_values(|s: String| s@);
    let ghost target = if twice {
        assignments(iv)
    } else {
        placeholders(iv)
    };
    let mut r = String::new();
    let mut i: usize = 0;
    proof {
        assert(target.subrange(0, 0) =~= Seq::<Seq<char>>::empty());
    }
    while i < items.len()
        invariant
            i <= items@.len(),
            iv == items@.map_values(|s: String| s@),
            target.len() == iv.len(),
            target == (if twice {
                assignments(iv)
            } else {
                placeholders(iv)
            }),
            r@ == comma_joined(target.subrange(0, i as int)),
        decreases items@.len() - i,
    {
        proof {
            let s = target.subrange(0, i as int + 1);
            assert(s.drop_last() =~= target.subrange(0, i as int));
            assert(s.last() == target[i as int]);
        }
        if i > 0 {
            r.append(", ");
        }
        if twice {
            r.append(items[i].as_str());
            r.append(" = {");
        } else {
            r.append("{");
        }
        r.append(items[i].as_str());
        r.append("}");
        proof {
            if i == 0 {
                assert(target.subrange(0, 1) =~= seq![target[0]]);
            }
        }
        i = i + 1;
    }
    proof {
        assert(target.subrange(0, target.len() as int) =~= target);
    }
    r
}

/// `items` separated by `, `.
fn join_plain(items: &Vec<String>) -> (r: String)
    ensures
        r@ == comma_joined(items@.map_values(|s: String| s@)),
{
    let ghost iv = items@.map_values(|s: String| s@);
    let mut r = String::new();
    let mut i: usize = 0;
    while i < items.len()
        invariant
            i <= items@.len(),
            iv == items@.map_values(|s: String| s@),
            r@ == comma_joined(iv.subrange(0, i as int)),
        decreases items@.len() - i,
    {
        proof {
            let s = iv.subrange(0, i as int + 1);
            assert(s.drop_last() =~= iv.subrange(0, i as int));
            assert(s.last() == iv[i as int]);
            if i == 0 {
                assert(iv.subrange(0, 1) =~= seq![iv[0]]);
            }
        }
        if i > 0 {
            r.append(", ");
        }
        r.append(items[i].as_str());
        i = i + 1;
    }
    proof {
        assert(iv.subrange(0, iv.len() as int) =~= iv);
    }
    r
}

/// `a` followed by `b`.
fn cat(a: &str, b: &str) -> (r: String)
    ensures
        r@ == a@ + b@,
{
    String::from_str(a).concat(b)
}

/// A generated endpoint with the fields that all five share.
fn generated(
    id: String,
    method: HttpMethod,
    route: String,
    db: &str,
    query: String,
    description: String,
    table: &str,
    tag: &str,
    body_params: Vec<String>,
) -> (e: Endpoint)
    ensures
        e.id == id,
        e.method == method,
        e.route == route,
        e.version matches Some(v) && v@ == "v1"@,
        e.target_database matches Some(d) && d@ == db@,
        e.execute matches Some(Execute::MySql(m)) && m.query == query,
        e.description is Some,
        e.tags@.len() == 2 && e.tags@[0]@ == table@ && e.tags@[1]@ == tag@,
        e.query_params@.len() == 0,
        e.body_params == body_params,
        !e.require_auth,
        e.allowed_roles@.len() == 0,
        !e.capture_all_params,
        !e.inject_user_id,
        !e.deprecated,
        e.auto_generated,
{
    let mut tags: Vec<String> = Vec::new();
    tags.push(String::from_str(table));
    tags.push(String::from_str(tag));
    Endpoint {
        id,
        route,
        version: Some(String::from_str("v1")),
        method,
        target_database: Some(String::from_str(db)),
        execute: Some(Execute::MySql(MySQLExecute { query })),
        description: Some(description),
        tags,
        query_params: Vec::new(),
        body_params,
        require_auth: false,
        allowed_roles: Vec::new(),
        capture_all_params: false,
        inject_user_id: false,
        deprecated: false,
        auto_generated: true,
    }
}

/// A copy of a list of names.
fn copy_names(v: &Vec<String>) -> (r: Vec<String>)
    ensures
        r@.map_values(|s: String| s@) == v@.map_values(|s: String| s@),
{
    let mut r: Vec<String> = Vec::new();
    let mut i: usize = 0;
    while i < v.len()
        invariant
            i <= v@.len(),
            r@.len() == i,
            forall|j: int| 0 <= j < i ==> r@[j]@ == v@[j]@,
        decreases v@.len() - i,
    {
        r.push(v[i].clone());
        i = i + 1;
    }
    assert(r@.map_values(|s: String| s@) =~= v@.map_values(|s: String| s@));
    r
}

/// The five CRUD endpoints of `table` on database `db`, in the order GET one,
/// GET many, POST, PUT, DELETE; fails when the table has no primary key.
pub fn table_endpoints(table: &TableSchema, db: &str) -> (r: Result<Vec<Endpoint>, DiscoveryError>)
    ensures
        r is Ok <==> has_primary(table.columns@),
        match r {
            Ok(v) => v@.len() == 5 && block_generated(v@, *table, db@, 0),
            Err(DiscoveryError::MissingPrimaryKey { table: t }) => t@ == table.name@,
            Err(DiscoveryError::Duplicate { .. }) => false,
        },
{
    let k = match find_primary(&table.columns) {
        Some(k) => k,
        None => {
            proof {
                assert(!has_primary(table.columns@));
            }
            return Err(DiscoveryError::MissingPrimaryKey { table: table.name.clone() });
        },
    };
    let ghost kk = k as int;
    proof {
        assert(has_primary(table.columns@)) by {
            assert(table.columns@[kk].is_primary);
        }
    }
    let t = table.name.as_str();
    let pk = table.columns[k].name.as_str();
    let cols = data_column_names(&table.columns);
    let ghost cv = cols@.map_values(|s: String| s@);
    let route_many = to_lower(t);
    let route_one = cat(route_many.as_str(), "/{id}");

    let q_one = String::from_str("SELECT * FROM ").concat(t).concat(" WHERE ").concat(pk).concat(
        " = {id}",
    );
    let q_many = cat("SELECT * FROM ", t);
    let names = join_plain(&cols);
    let holders = join_columns(&cols, false);
    let q_post = String::from_str("INSERT INTO ").concat(t).concat(" (").concat(
        names.as_str(),
    ).concat(") VALUES (").concat(holders.as_str()).concat(")");
    let sets = join_columns(&cols, true);
    let q_put = String::from_str("UPDATE ").concat(t).concat(" SET ").concat(sets.as_str()).concat(
        " WHERE ",
    ).concat(pk).concat(" = {id}");
    let q_delete = String::from_str("DELETE FROM ").concat(t).concat(" WHERE ").concat(pk).concat(
        " = {id}",
    );

    let e_one = generated(
        cat(t, "_GetOne"),
        HttpMethod::Get,
        route_one.clone(),
        db,
        q_one,
        String::from_str(t).concat(": one row by its primary key."),
        t,
        "get_one",
        Vec::new(),
    );
    let e_many = generated(
        cat(t, "_GetMany"),
        HttpMethod::Get,
        route_many.clone(),
        db,
        q_many,
        String::from_str(t).concat(": all rows."),
        t,
        "get_all",
        Vec::new(),
    );
    let e_post = generated(
        cat(t, "_Post"),
        HttpMethod::Post,
        route_many,
        db,
        q_post,
        String::from_str(t).concat(": inserts a row."),
        t,
        "post",
        copy_names(&cols),
    );
    let e_put = generated(
        cat(t, "_Put"),
        HttpMethod::Put,
        route_one.clone(),
        db,
        q_put,
        String::from_str(t).concat(": updates the row with the given primary key."),
        t,
        "put",
        copy_names(&cols),
    );
    let e_delete = generated(
        cat(t, "_Delete"),
        HttpMethod::Delete,
        route_one,
        db,
        q_delete,
        String::from_str(t).concat(": deletes the row with the given primary key."),
        t,
        "delete",
        Vec::new(),
    );
    let mut v: Vec<Endpoint> = Vec::new();
    v.push(e_one);
    v.push(e_many);
    v.push(e_post);
    v.push(e_put);
    v.push(e_delete);
    proof {
        assert(Seq::<String>::empty().map_values(|b: String| b@) =~= Seq::<Seq<char>>::empty());
        assert forall|j: int| 0 <= j < 5 implies is_generated(
            #[trigger] v@[0 + j],
            *table,
            table.columns@[kk].name@,
            db@,
            kind_at(j),
        ) by {
            assert(cv == data_columns(table.columns@));
        }
        assert(primary_at(table.columns@, kk));
    }
    Ok(v)
}

/// The id of the generated endpoint of kind `j` of table `t`.
pub open spec fn generated_id(t: TableSchema, j: int) -> Seq<char> {
    t.name@ + generated_suffix(kind_at(j))
}

/// The route of the generated endpoint of kind `j` of table `t`.
pub open spec fn generated_route(t: TableSchema, j: int) -> Seq<char> {
    if addresses_row(kind_at(j)) {
        lowercase_text(t.name@) + "/{id}"@
    } else {
        lowercase_text(t.name@)
    }
}

/// The uniqueness key of the generated endpoint of kind `j` of table `t`.
pub open spec fn generated_key(t: TableSchema, j: int) -> (HttpMethod, Seq<char>, Option<Seq<char>>) {
    (generated_method(kind_at(j)), trim_slashes(generated_route(t, j)), Some("v1"@))
}

/// No two endpoints generated for the tables `kept` share an id or a key.
pub open spec fn generated_distinct(kept: Seq<TableSchema>) -> bool {
    forall|a: int, j: int, b: int, k: int|
        0 <= a < kept.len() && 0 <= j < 5 && 0 <= b < kept.len() && 0 <= k < 5 && (a != b || j
            != k) ==> #[trigger] generated_id(kept[a], j) != #[trigger] generated_id(kept[b], k)
            && generated_key(kept[a], j) != generated_key(kept[b], k)
}

proof fn lemma_generated_names(e: Endpoint, t: TableSchema, pk: Seq<char>, db: Seq<char>, j: int)
    requires
        0 <= j < 5,
        is_generated(e, t, pk, db, kind_at(j)),
    ensures
        e.id@ == generated_id(t, j),
        route_key(e) == generated_key(t, j),
{
}

proof fn lemma_duplicate_breaks_distinct(
    kept_all: Seq<TableSchema>,
    kept_before: Seq<TableSchema>,
    table: TableSchema,
    base: Seq<Endpoint>,
    v0: Seq<Endpoint>,
    j: int,
    db: Seq<char>,
)
    requires
        kept_before.len() < kept_all.len(),
        forall|m: int| 0 <= m < kept_before.len() ==> kept_before[m] == kept_all[m],
        kept_all[kept_before.len() as int] == table,
        generated_for(base, kept_before, db),
        v0.len() == 5,
        block_generated(v0, table, db, 0),
        0 <= j < 5,
        has_conflict(base + v0.subrange(0, j), v0[j]),
    ensures
        !generated_distinct(kept_all),
{
    let kb = kept_before.len() as int;
    let eb = base + v0.subrange(0, j);
    let m = choose|m: int| 0 <= m < eb.len() && conflicts(eb[m], v0[j]);
    let k0 = choose|k: int|
        primary_at(table.columns@, k) && forall|jj: int|
            0 <= jj < 5 ==> is_generated(
                #[trigger] v0[0 + jj],
                table,
                table.columns@[k].name@,
                db,
                kind_at(jj),
            );
    assert(v0[0 + j] == v0[j]);
    lemma_generated_names(v0[j], table, table.columns@[k0].name@, db, j);
    if m < base.len() {
        let a = m / 5;
        let jj = m % 5;
        assert(5 * a + jj == m);
        assert(0 <= a < kb);
        assert(block_generated(base, kept_before[a], db, 5 * a));
        let k1 = choose|k: int|
            primary_at(kept_before[a].columns@, k) && forall|x: int|
                0 <= x < 5 ==> is_generated(
                    #[trigger] base[5 * a + x],
                    kept_before[a],
                    kept_before[a].columns@[k].name@,
                    db,
                    kind_at(x),
                );
        assert(eb[m] == base[5 * a + jj]);
        lemma_generated_names(base[5 * a + jj], kept_before[a], kept_before[a].columns@[k1].name@, db, jj);
        assert(kept_all[a] == kept_before[a]);
        assert(!(generated_id(kept_all[a], jj) != generated_id(kept_all[kb], j)
            && generated_key(kept_all[a], jj) != generated_key(kept_all[kb], j)));
    } else {
        let jj = m - base.len();
        assert(0 <= jj < j);
        assert(eb[m] == v0[jj]);
        assert(v0[0 + jj] == v0[jj]);
        lemma_generated_names(v0[jj], table, table.columns@[k0].name@, db, jj);
        assert(!(generated_id(kept_all[kb], jj) != generated_id(kept_all[kb], j)
            && generated_key(kept_all[kb], jj) != generated_key(kept_all[kb], j)));
    }
}

/// The views of a list of texts.
pub open spec fn names_of(v: Seq<String>) -> Seq<Seq<char>> {
    v.map_values(|s: String| s@)
}

/// The tables of `tables` whose name is not in `skip`, in order.
pub open spec fn kept_tables(tables: Seq<TableSchema>, skip: Seq<Seq<char>>) -> Seq<TableSchema>
    decreases tables.len(),
{
    if tables.len() == 0 {
        Seq::empty()
    } else if skip.contains(tables.last().name@) {
        kept_tables(tables.drop_last(), skip)
    } else {
        kept_tables(tables.drop_last(), skip).push(tables.last())
    }
}

/// `eps[start..start + 5]` are the generated endpoints of `table` on `db`.
pub open spec fn block_generated(eps: Seq<Endpoint>, table: TableSchema, db: Seq<char>, start: int) -> bool {
    exists|k: int|
        primary_at(table.columns@, k) && forall|j: int|
            0 <= j < 5 ==> is_generated(
                #[trigger] eps[start + j],
                table,
                table.columns@[k].name@,
                db,
                kind_at(j),
            )
}

/// `eps` holds, five by five, the generated endpoints of each table of `kept`.
pub open spec fn generated_for(eps: Seq<Endpoint>, kept: Seq<TableSchema>, db: Seq<char>) -> bool {
    &&& eps.len() == 5 * kept.len()
    &&& forall|i: int| 0 <= i < kept.len() ==> block_generated(eps, #[trigger] kept[i], db, 5 * i)
}

proof fn lemma_kept_prefix(t: Seq<TableSchema>, i: int, skip: Seq<Seq<char>>)
    requires
        0 <= i <= t.len(),
    ensures
        kept_tables(t.subrange(0, i), skip).len() <= kept_tables(t, skip).len(),
        forall|m: int|
            0 <= m < kept_tables(t.subrange(0, i), skip).len() ==> #[trigger] kept_tables(
                t.subrange(0, i),
                skip,
            )[m] == kept_tables(t, skip)[m],
    decreases t.len(),
{
    if i == t.len() {
        assert(t.subrange(0, i) =~= t);
    } else {
        let d = t.drop_last();
        assert(d.subrange(0, i) =~= t.subrange(0, i));
        lemma_kept_prefix(d, i, skip);
    }
}

/// Whether `name` is one of `names`.
fn contains_name(names: &Vec<String>, name: &str) -> (r: bool)
    ensures
        r == names_of(names@).contains(name@),
{
    let ghost nv = names_of(names@);
    let mut i: usize = 0;
    while i < names.len()
        invariant
            i <= names@.len(),
            nv == names_of(names@),
            forall|j: int| 0 <= j < i ==> nv[j] != name@,
        decreases names@.len() - i,
    {
        if str_equal(names[i].as_str(), name) {
            assert(nv[i as int] == name@);
            return true;
        }
        i = i + 1;
    }
    false
}


impl MySQLSchemaDiscoveryMethod {
    /// The CRUD endpoints of every table not in the skip list, five per table in table
    /// order, on database `db`. Fails on the first kept table without a primary key, or
    /// when a generated endpoint has the id or key of an earlier one.
    pub fn discover_endpoints(&self, tables: &Vec<TableSchema>, db: &str) -> (r: Result<
        Endpoints,
        DiscoveryError,
    >)
        ensures
            match r {
                Ok(eps) => eps.well_formed() && generated_for(
                    eps@,
                    kept_tables(tables@, names_of(self.skip_tables@)),
                    db@,
                ),
                Err(DiscoveryError::MissingPrimaryKey { table }) => exists|i: int|
                    0 <= i < kept_tables(tables@, names_of(self.skip_tables@)).len()
                        && #[trigger] kept_tables(tables@, names_of(self.skip_tables@))[i].name@
                        == table@ && !has_primary(
                        kept_tables(tables@, names_of(self.skip_tables@))[i].columns@,
                    ),
                Err(DiscoveryError::Duplicate { .. }) => !generated_distinct(
                    kept_tables(tables@, names_of(self.skip_tables@)),
                ),
            },
            (forall|i: int|
                0 <= i < kept_tables(tables@, names_of(self.skip_tables@)).len() ==> has_primary(
                    #[trigger] kept_tables(tables@, names_of(self.skip_tables@))[i].columns@,
                )) && generated_distinct(kept_tables(tables@, names_of(self.skip_tables@)))
                ==> r is Ok,
    {
        let ghost skip = names_of(self.skip_tables@);
        let mut eps = Endpoints::empty();
        let mut i: usize = 0;
        proof {
            assert(tables@.subrange(0, 0) =~= Seq::<TableSchema>::empty());
        }
        while i < tables.len()
            invariant
                i <= tables@.len(),
                skip == names_of(self.skip_tables@),
                eps.well_formed(),
                generated_for(eps@, kept_tables(tables@.subrange(0, i as int), skip), db@),
                forall|m: int|
                    0 <= m < kept_tables(tables@.subrange(0, i as int), skip).len() ==> #[trigger]
                    kept_tables(tables@.subrange(0, i as int), skip)[m] == kept_tables(
                        tables@,
                        skip,
                    )[m],
                kept_tables(tables@.subrange(0, i as int), skip).len() <= kept_tables(
                    tables@,
                    skip,
                ).len(),
            decreases tables@.len() - i,
        {
            proof {
                let s = tables@.subrange(0, i as int + 1);
                assert(s.drop_last() =~= tables@.subrange(0, i as int));
                assert(s.last() == tables@[i as int]);
                lemma_kept_prefix(tables@, i as int + 1, skip);
            }
            let table = &tables[i];
            if contains_name(&self.skip_tables, table.name.as_str()) {
                assert(kept_tables(tables@.subrange(0, i as int + 1), skip) == kept_tables(
                    tables@.subrange(0, i as int),
                    skip,
                ));
                i = i + 1;
            } else {
                let ghost kept_before = kept_tables(tables@.subrange(0, i as int), skip);
                let ghost kept_after = kept_tables(tables@.subrange(0, i as int + 1), skip);
                assert(kept_after == kept_before.push(*table));
                let mut v = match table_endpoints(table, db) {
                    Ok(v) => v,
                    Err(e) => {
                        proof {
                            let m = kept_before.len() as int;
                            assert(kept_after[m] == *table);
                            assert(kept_tables(tables@, skip)[m] == *table);
                        }
                        return Err(e);
                    },
                };
                let ghost v0 = v@;
                let ghost base = eps@;
                let ghost kk = choose|k: int|
                    primary_at(table.columns@, k) && forall|j: int|
                        0 <= j < 5 ==> is_generated(
                            #[trigger] v0[0 + j],
                            *table,
                            table.columns@[k].name@,
                            db@,
                            kind_at(j),
                        );
                let mut j: usize = 0;
                proof {
                    assert(base + v0.subrange(0, 0) =~= base);
                    assert(v@ =~= v0.subrange(0, 5));
                }
                while j < 5
                    invariant
                        j <= 5,
                        v0.len() == 5,
                        v@ == v0.subrange(j as int, 5),
                        eps@ == base + v0.subrange(0, j as int),
                        eps.well_formed(),
                        generated_for(base, kept_before, db@),
                        block_generated(v0, *table, db@, 0),
                        skip == names_of(self.skip_tables@),
                        kept_after == kept_before.push(*table),
                        kept_after == kept_tables(tables@.subrange(0, i as int + 1), skip),
                        kept_after.len() <= kept_tables(tables@, skip).len(),
                        forall|m: int|
                            0 <= m < kept_after.len() ==> #[trigger] kept_after[m] == kept_tables(
                                tables@,
                                skip,
                            )[m],
                    decreases 5 - j,
                {
                    let e = v.remove(0);
                    let id = e.id.clone();
                    let ghost before = eps@;
                    proof {
                        assert(e == v0[j as int]);
                    }
                    match eps.add(e) {
                        Ok(()) => {},
                        Err(_) => {
                            proof {
                                let kb = kept_before.len() as int;
                                assert(kept_after[kb] == *table);
                                assert forall|m: int| 0 <= m < kept_before.len() implies kept_before[m]
                                    == kept_tables(tables@, skip)[m] by {
                                    assert(kept_after[m] == kept_before[m]);
                                }
                                lemma_duplicate_breaks_distinct(
                                    kept_tables(tables@, skip),
                                    kept_before,
                                    *table,
                                    base,
                                    v0,
                                    j as int,
                                    db@,
                                );
                            }
                            return Err(DiscoveryError::Duplicate { id });
                        },
                    }
                    j = j + 1;
                    proof {
                        assert(eps@ =~= base + v0.subrange(0, j as int));
                        assert(v@ =~= v0.subrange(j as int, 5));
                    }
                }
                proof {
                    assert(v0.subrange(0, 5) =~= v0);
                    let ka = kept_after;
                    assert(eps@.len() == 5 * ka.len());
                    assert forall|a: int| 0 <= a < ka.len() implies block_generated(
                        eps@,
                        #[trigger] ka[a],
                        db@,
                        5 * a,
                    ) by {
                        if a < kept_before.len() {
                            assert(ka[a] == kept_before[a]);
                            assert(block_generated(base, kept_before[a], db@, 5 * a));
                            let k = choose|k: int|
                                primary_at(kept_before[a].columns@, k) && forall|j: int|
                                    0 <= j < 5 ==> is_generated(
                                        #[trigger] base[5 * a + j],
                                        kept_before[a],
                                        kept_before[a].columns@[k].name@,
                                        db@,
                                        kind_at(j),
                                    );
                            assert forall|j: int| 0 <= j < 5 implies is_generated(
                                #[trigger] eps@[5 * a + j],
                                ka[a],
                                ka[a].columns@[k].name@,
                                db@,
                                kind_at(j),
                            ) by {
                                assert(eps@[5 * a + j] == base[5 * a + j]);
                            }
                        } else {
                            assert(ka[a] == *table);
                            assert forall|j: int| 0 <= j < 5 implies is_generated(
                                #[trigger] eps@[5 * a + j],
                                ka[a],
                                ka[a].columns@[kk].name@,
                                db@,
                                kind_at(j),
                            ) by {
                                assert(eps@[5 * a + j] == v0[0 + j]);
                            }
                            assert(primary_at(ka[a].columns@, kk));
                        }
                    }
                }
                i = i + 1;
            }
        }
        proof {
            assert(tables@.subrange(0, tables@.len() as int) =~= tables@);
        }
        Ok(eps)
    }
}

} // verus!
