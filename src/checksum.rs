//! Schema checksums: a CRC32 over a canonical rendering of the reflected schema,
//! recorded per database in the artifact and compared with the live schema at start.

use vstd::prelude::*;

use crate::discovery::{ColumnInfo, TableSchema, names_of};
use crate::text::str_equal;

verus! {

/// A database's schema digest as recorded in the artifact.
#[derive(Clone, Debug)]
pub struct DatabaseChecksum {
    pub database_id: String,
    pub checksum: Vec<u8>,
}

/// What `crc32fast::hash` returns on the UTF-8 bytes of a text.
pub uninterp spec fn crc32_of(s: Seq<char>) -> u32;

/// Relies on `crc32fast::hash`: the CRC32 of the text's UTF-8 bytes, a function of
/// the text alone.
#[verifier::external_body]
fn crc32_text(s: &str) -> (r: u32)
    ensures
        r == crc32_of(s@),
{
    crc32fast::hash(s.as_bytes())
}

/// The four bytes of `x`, least significant first.
pub open spec fn le_bytes(x: u32) -> Seq<u8> {
    seq![
        (x % 256) as u8,
        ((x / 256) % 256) as u8,
        ((x / 65536) % 256) as u8,
        (x / 16777216) as u8,
    ]
}

/// The four bytes of `x`, least significant first.
pub fn u32_le_bytes(x: u32) -> (r: Vec<u8>)
    ensures
        r@ == le_bytes(x),
{
    let mut r: Vec<u8> = Vec::new();
    r.push((x % 256) as u8);
    r.push(((x / 256) % 256) as u8);
    r.push(((x / 65536) % 256) as u8);
    r.push((x / 16777216) as u8);
    assert(r@ =~= le_bytes(x));
    r
}

/// One column as rendered for the checksum: `name type`, then ` PRIMARY KEY` for a key.
pub open spec fn column_text(c: ColumnInfo) -> Seq<char> {
    c.name@ + " "@ + c.column_type@ + (if c.is_primary {
        " PRIMARY KEY"@
    } else {
        Seq::empty()
    })
}

/// The columns rendered and separated by `, `.
pub open spec fn columns_text(cols: Seq<ColumnInfo>) -> Seq<char>
    decreases cols.len(),
{
    if cols.len() == 0 {
        Seq::empty()
    } else if cols.len() == 1 {
        column_text(cols[0])
    } else {
        columns_text(cols.drop_last()) + ", "@ + column_text(cols.last())
    }
}

/// The canonical rendering of a schema: one `name(columns)` line per table, in order.
pub open spec fn schema_text(tables: Seq<TableSchema>) -> Seq<char>
    decreases tables.len(),
{
    if tables.len() == 0 {
        Seq::empty()
    } else {
        schema_text(tables.drop_last()) + tables.last().name@ + "("@ + columns_text(
            tables.last().columns@,
        ) + ")\n"@
    }
}

fn render_column(c: &ColumnInfo) -> (r: String)
    ensures
        r@ == column_text(*c),
{
    let mut r = String::from_str(c.name.as_str());
    r.append(" ");
    r.append(c.column_type.as_str());
    if c.is_primary {
        r.append(" PRIMARY KEY");
    } else {
        assert(r@ + Seq::<char>::empty() =~= r@);
    }
    r
}

/// The canonical rendering of `tables`.
pub fn render_schema(tables: &Vec<TableSchema>) -> (r: String)
    ensures
        r@ == schema_text(tables@),
{
    let mut r = String::new();
    let mut i: usize = 0;
    while i < tables.len()
        invariant
            i <= tables@.len(),
            r@ == schema_text(tables@.subrange(0, i as int)),
        decreases tables@.len() - i,
    {
        proof {
            let s = tables@.subrange(0, i as int + 1);
            assert(s.drop_last() =~= tables@.subrange(0, i as int));
            assert(s.last() == tables@[i as int]);
        }
        let cols = &tables[i].columns;
        r.append(tables[i].name.as_str());
        r.append("(");
        let ghost head = r@;
        let mut j: usize = 0;
        while j < cols.len()
            invariant
                j <= cols@.len(),
                r@ == head + columns_text(cols@.subrange(0, j as int)),
            decreases cols@.len() - j,
        {
            proof {
                let s = cols@.subrange(0, j as int + 1);
                assert(s.drop_last() =~= cols@.subrange(0, j as int));
                assert(s.last() == cols@[j as int]);
                if j == 0 {
                    assert(s =~= seq![cols@[0]]);
                }
            }
            if j > 0 {
                r.append(", ");
            }
            let c = render_column(&cols[j]);
            r.append(c.as_str());
            proof {
                if j == 0 {
                    assert(head + Seq::<char>::empty() =~= head);
                }
            }
            j = j + 1;
        }
        proof {
            assert(cols@.subrange(0, cols@.len() as int) =~= cols@);
        }
        r.append(")\n");
        i = i + 1;
    }
    proof {
        assert(tables@.subrange(0, tables@.len() as int) =~= tables@);
    }
    r
}

/// The checksum of database `database_id` whose reflected schema is `tables`: the
/// little-endian CRC32 of the schema's canonical rendering.
pub fn schema_checksum(database_id: &str, tables: &Vec<TableSchema>) -> (r: DatabaseChecksum)
    ensures
        r.database_id@ == database_id@,
        r.checksum@ == le_bytes(crc32_of(schema_text(tables@))),
{
    let text = render_schema(tables);
    let crc = crc32_text(text.as_str());
    DatabaseChecksum { database_id: String::from_str(database_id), checksum: u32_le_bytes(crc) }
}

/// The live checksums by database id; a later entry for an id wins.
pub open spec fn checksum_map(live: Seq<DatabaseChecksum>) -> Map<Seq<char>, Seq<u8>>
    decreases live.len(),
{
    if live.len() == 0 {
        Map::empty()
    } else {
        checksum_map(live.drop_last()).insert(live.last().database_id@, live.last().checksum@)
    }
}

/// A recorded checksum that names a configured database whose live checksum equals it.
pub open spec fn checksum_holds(
    d: DatabaseChecksum,
    ids: Seq<Seq<char>>,
    live: Map<Seq<char>, Seq<u8>>,
) -> bool {
    ids.contains(d.database_id@) && live.contains_key(d.database_id@) && live[d.database_id@]
        == d.checksum@
}

/// Why the recorded checksums were refused at start.
#[derive(Clone, Debug)]
pub enum ChecksumError {
    /// The artifact records a checksum for a database it does not configure.
    UnknownDatabase { database_id: String },
    /// The database's schema has changed since the build.
    SchemaChanged { database_id: String },
}

proof fn lemma_checksum_prefix(s: Seq<DatabaseChecksum>, i: int, id: Seq<char>)
    requires
        0 <= i <= s.len(),
        forall|j: int| i <= j < s.len() ==> (#[trigger] s[j]).database_id@ != id,
    ensures
        checksum_map(s).contains_key(id) == checksum_map(s.subrange(0, i)).contains_key(id),
        checksum_map(s).contains_key(id) ==> checksum_map(s)[id] == checksum_map(
            s.subrange(0, i),
        )[id],
    decreases s.len(),
{
    if i == s.len() {
        assert(s.subrange(0, i) =~= s);
    } else {
        let d = s.drop_last();
        assert(d.subrange(0, i) =~= s.subrange(0, i));
        assert forall|j: int| i <= j < d.len() implies (#[trigger] d[j]).database_id@ != id by {
            assert(d[j] == s[j]);
        }
        lemma_checksum_prefix(d, i, id);
    }
}

/// The live checksum of `id`, if computed.
fn live_checksum<'a>(live: &'a Vec<DatabaseChecksum>, id: &str) -> (r: Option<&'a Vec<u8>>)
    ensures
        match r {
            Some(c) => checksum_map(live@).contains_key(id@) && c@ == checksum_map(live@)[id@],
            None => !checksum_map(live@).contains_key(id@),
        },
{
    let mut i: usize = live.len();
    while i > 0
        invariant
            i <= live@.len(),
            forall|j: int| i <= j < live@.len() ==> (#[trigger] live@[j]).database_id@ != id@,
        decreases i,
    {
        if str_equal(live[i - 1].database_id.as_str(), id) {
            proof {
                lemma_checksum_prefix(live@, i as int, id@);
                assert(live@.subrange(0, i as int).drop_last() =~= live@.subrange(0, i - 1));
            }
            return Some(&live[i - 1].checksum);
        }
        i = i - 1;
    }
    proof {
        lemma_checksum_prefix(live@, 0, id@);
    }
    None
}

fn bytes_equal(a: &Vec<u8>, b: &Vec<u8>) -> (r: bool)
    ensures
        r == (a@ == b@),
{
    if a.len() != b.len() {
        return false;
    }
    let mut i: usize = 0;
    while i < a.len()
        invariant
            a@.len() == b@.len(),
            i <= a@.len(),
            forall|j: int| 0 <= j < i ==> a@[j] == b@[j],
        decreases a@.len() - i,
    {
        if a[i] != b[i] {
            return false;
        }
        i = i + 1;
    }
    assert(a@ =~= b@);
    true
}

fn contains_id(ids: &Vec<String>, id: &str) -> (r: bool)
    ensures
        r == names_of(ids@).contains(id@),
{
    let ghost nv = names_of(ids@);
    let mut i: usize = 0;
    while i < ids.len()
        invariant
            i <= ids@.len(),
            nv == names_of(ids@),
            forall|j: int| 0 <= j < i ==> nv[j] != id@,
        decreases ids@.len() - i,
    {
        if str_equal(ids[i].as_str(), id) {
            assert(nv[i as int] == id@);
            return true;
        }
        i = i + 1;
    }
    false
}

/// Checks the recorded checksums, in order, against the configured database ids and
/// the checksums of the live schemas: fails on the first one that names no configured
/// database, or whose live checksum is missing or differs.
pub fn verify_checksums(
    recorded: &Vec<DatabaseChecksum>,
    database_ids: &Vec<String>,
    live: &Vec<DatabaseChecksum>,
) -> (r: Result<(), ChecksumError>)
    ensures
        r is Ok <==> forall|i: int|
            0 <= i < recorded@.len() ==> checksum_holds(
                #[trigger] recorded@[i],
                names_of(database_ids@),
                checksum_map(live@),
            ),
        match r {
            Ok(()) => true,
            Err(e) => exists|i: int|
                0 <= i < recorded@.len() && !checksum_holds(
                    recorded@[i],
                    names_of(database_ids@),
                    checksum_map(live@),
                ) && (forall|j: int|
                    0 <= j < i ==> checksum_holds(
                        #[trigger] recorded@[j],
                        names_of(database_ids@),
                        checksum_map(live@),
                    )) && match e {
                    ChecksumError::UnknownDatabase { database_id } => database_id@
                        == recorded@[i].database_id@ && !names_of(database_ids@).contains(
                        database_id@,
                    ),
                    ChecksumError::SchemaChanged { database_id } => database_id@
                        == recorded@[i].database_id@ && names_of(database_ids@).contains(
                        database_id@,
                    ),
                },
        },
{
    let mut i: usize = 0;
    while i < recorded.len()
        invariant
            i <= recorded@.len(),
            forall|j: int|
                0 <= j < i ==> checksum_holds(
                    #[trigger] recorded@[j],
                    names_of(database_ids@),
                    checksum_map(live@),
                ),
        decreases recorded@.len() - i,
    {
        let d = &recorded[i];
        if !contains_id(database_ids, d.database_id.as_str()) {
            return Err(ChecksumError::UnknownDatabase { database_id: d.database_id.clone() });
        }
        let same = match live_checksum(live, d.database_id.as_str()) {
            Some(c) => bytes_equal(c, &d.checksum),
            None => false,
        };
        if !same {
            return Err(ChecksumError::SchemaChanged { database_id: d.database_id.clone() });
        }
        i = i + 1;
    }
    Ok(())
}

} // verus!
