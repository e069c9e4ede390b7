use crate::decimal::{push_decimal, spec_decimal_text};
use crate::error::MeshError;
use crate::number::{parse_i64_chars, spec_parse_i64};
use crate::registry::MeshStats;
use crate::text::{chars_of, same_text};
use crate::values::{nullable_number, parse_nullable, spec_parse_nullable};
use vstd::prelude::*;
use vstd::string::*;

verus! {

/// The SQL type of a column of a mesh table, by the column's name: the key and
/// the code that a cell was merged into are big integers, the list of merged
/// codes is an array of them, the kind of merging is a small integer, and every
/// statistic is an integer.
pub open spec fn spec_column_type(col: Seq<char>) -> Seq<char> {
    if col == "KEY_CODE"@ || col == "HTKSAKI"@ {
        "BIGINT"@
    } else if col == "GASSAN"@ {
        "BIGINT[]"@
    } else if col == "HTKSYORI"@ {
        "SMALLINT"@
    } else {
        "INTEGER"@
    }
}

/// The SQL type of the column named `col`.
pub fn infer_column_type(col: &str) -> (sql_type: &'static str)
    ensures
        sql_type@ == spec_column_type(col@),
{
    if same_text(col, "KEY_CODE") || same_text(col, "HTKSAKI") {
        "BIGINT"
    } else if same_text(col, "GASSAN") {
        "BIGINT[]"
    } else if same_text(col, "HTKSYORI") {
        "SMALLINT"
    } else {
        "INTEGER"
    }
}

/// The address from which the mesh statistics `stats_id` of one first-level
/// mesh are downloaded.
pub open spec fn spec_mesh_data_url(stats_id: Seq<char>, mesh: u64) -> Seq<char> {
    "https://www.e-stat.go.jp/gis/statmap-search/data?statsId="@ + stats_id + "&code="@
        + spec_decimal_text(mesh as nat) + "&downloadType=2"@
}

/// The address from which the mesh statistics of one first-level mesh are downloaded.
pub fn mesh_data_url(stats_id: &str, mesh: u64) -> (url: String)
    ensures
        url@ == spec_mesh_data_url(stats_id@, mesh),
{
    let mut url = String::new();
    url.append("https://www.e-stat.go.jp/gis/statmap-search/data?statsId=");
    url.append(stats_id);
    url.append("&code=");
    push_decimal(&mut url, mesh);
    url.append("&downloadType=2");
    assert(url@ =~= spec_mesh_data_url(stats_id@, mesh));
    url
}

/// The name under which the archive of one first-level mesh is kept: year,
/// statistics and mesh, with hyphens between, and `.zip`.
pub fn mesh_archive_name(year: u16, stats_id: &str, mesh: u64) -> (name: String)
    ensures
        name@ == spec_decimal_text(year as nat) + "-"@ + stats_id@ + "-"@ + spec_decimal_text(
            mesh as nat,
        ) + ".zip"@,
{
    let mut name = String::new();
    push_decimal(&mut name, year as u64);
    name.append("-");
    name.append(stats_id);
    name.append("-");
    push_decimal(&mut name, mesh);
    name.append(".zip");
    assert(name@ =~= spec_decimal_text(year as nat) + "-"@ + stats_id@ + "-"@ + spec_decimal_text(
        mesh as nat,
    ) + ".zip"@);
    name
}

/// The name of the table of a survey: `jp_estat_mesh_`, then year, statistics
/// and mesh level, with underscores between.
pub fn mesh_table_name(stats: &MeshStats) -> (name: String)
    ensures
        name@ == "jp_estat_mesh_"@ + spec_decimal_text(stats.year as nat) + "_"@ + stats.stats_id@
            + "_"@ + spec_decimal_text(stats.meshlevel as nat),
{
    let mut name = String::new();
    name.append("jp_estat_mesh_");
    push_decimal(&mut name, stats.year as u64);
    name.append("_");
    name.append(stats.stats_id.as_str());
    name.append("_");
    push_decimal(&mut name, stats.meshlevel as u64);
    assert(name@ =~= "jp_estat_mesh_"@ + spec_decimal_text(stats.year as nat) + "_"@
        + stats.stats_id@ + "_"@ + spec_decimal_text(stats.meshlevel as nat));
    name
}

/// The texts `parts` in a row, with `sep` between each two.
pub open spec fn spec_join(parts: Seq<Seq<char>>, sep: Seq<char>) -> Seq<char>
    decreases parts.len(),
{
    if parts.len() == 0 {
        Seq::<char>::empty()
    } else if parts.len() == 1 {
        parts[0]
    } else {
        spec_join(parts.drop_last(), sep) + sep + parts.last()
    }
}

/// The definition of one column: its name in double quotes, and its type.
pub open spec fn spec_column_definition(col: Seq<char>) -> Seq<char> {
    "\""@ + col + "\" "@ + spec_column_type(col)
}

/// The definitions of `columns`, with `, ` between.
pub open spec fn spec_column_definitions(columns: Seq<String>) -> Seq<char> {
    spec_join(Seq::new(columns.len(), |i: int| spec_column_definition(columns[i]@)), ", "@)
}

/// The names of `columns` in double quotes, with `, ` between.
pub open spec fn spec_quoted_columns(columns: Seq<String>) -> Seq<char> {
    spec_join(Seq::new(columns.len(), |i: int| "\""@ + columns[i]@ + "\""@), ", "@)
}

/// The placeholders `$1`, `$2`, and so on, one for each of `count` columns, with
/// `, ` between.
pub open spec fn spec_placeholders(count: nat) -> Seq<char> {
    spec_join(Seq::new(count, |i: int| "$"@ + spec_decimal_text((i + 1) as nat)), ", "@)
}

/// The statement that makes the table `table` with the columns `columns`.
pub fn create_table_statement(table: &str, columns: &[String]) -> (sql: String)
    ensures
        sql@ == "CREATE TABLE "@ + table@ + " ("@ + spec_column_definitions(columns@) + ");"@,
{
    let mut sql = String::new();
    sql.append("CREATE TABLE ");
    sql.append(table);
    sql.append(" (");
    let ghost head = sql@;
    let ghost defs = Seq::new(columns@.len(), |i: int| spec_column_definition(columns@[i]@));
    let mut i: usize = 0;
    while i < columns.len()
        invariant
            i <= columns.len(),
            head == "CREATE TABLE "@ + table@ + " ("@,
            defs == Seq::new(columns@.len(), |i: int| spec_column_definition(columns@[i]@)),
            sql@ == head + spec_join(defs.take(i as int), ", "@),
        decreases columns.len() - i,
    {
        proof {
            assert(defs.take(i + 1).drop_last() =~= defs.take(i as int));
            assert(defs.take(i + 1).last() == spec_column_definition(columns@[i as int]@));
            if i == 0 {
                assert(spec_join(defs.take(0), ", "@) =~= Seq::<char>::empty());
            }
        }
        if i > 0 {
            sql.append(", ");
        }
        sql.append("\"");
        sql.append(columns[i].as_str());
        sql.append("\" ");
        sql.append(infer_column_type(columns[i].as_str()));
        proof {
            assert(sql@ =~= head + spec_join(defs.take(i + 1), ", "@));
        }
        i = i + 1;
    }
    sql.append(");");
    proof {
        assert(defs.take(columns.len() as int) =~= defs);
        assert(sql@ =~= "CREATE TABLE "@ + table@ + " ("@ + spec_column_definitions(columns@)
            + ");"@);
    }
    sql
}

/// The statement that drops the table `table` if there is one.
pub fn drop_table_statement(table: &str) -> (sql: String)
    ensures
        sql@ == "DROP TABLE IF EXISTS "@ + table@,
{
    let mut sql = String::new();
    sql.append("DROP TABLE IF EXISTS ");
    sql.append(table);
    assert(sql@ =~= "DROP TABLE IF EXISTS "@ + table@);
    sql
}

/// The statement that puts one row into the table `table`.
pub fn insert_statement(table: &str, columns: &[String]) -> (sql: String)
    ensures
        sql@ == "INSERT INTO "@ + table@ + " ("@ + spec_quoted_columns(columns@) + ") VALUES ("@
            + spec_placeholders(columns@.len()) + ")"@,
{
    let mut sql = String::new();
    sql.append("INSERT INTO ");
    sql.append(table);
    sql.append(" (");
    let ghost head = sql@;
    let ghost quoted = Seq::new(columns@.len(), |i: int| "\""@ + columns@[i]@ + "\""@);
    let mut i: usize = 0;
    while i < columns.len()
        invariant
            i <= columns.len(),
            head == "INSERT INTO "@ + table@ + " ("@,
            quoted == Seq::new(columns@.len(), |i: int| "\""@ + columns@[i]@ + "\""@),
            sql@ == head + spec_join(quoted.take(i as int), ", "@),
        decreases columns.len() - i,
    {
        proof {
            assert(quoted.take(i + 1).drop_last() =~= quoted.take(i as int));
            assert(quoted.take(i + 1).last() == "\""@ + columns@[i as int]@ + "\""@);
            if i == 0 {
                assert(spec_join(quoted.take(0), ", "@) =~= Seq::<char>::empty());
            }
        }
        if i > 0 {
            sql.append(", ");
        }
        sql.append("\"");
        sql.append(columns[i].as_str());
        sql.append("\"");
        proof {
            assert(sql@ =~= head + spec_join(quoted.take(i + 1), ", "@));
        }
        i = i + 1;
    }
    sql.append(") VALUES (");
    let ghost middle = sql@;
    let ghost marks = Seq::new(columns@.len(), |i: int| "$"@ + spec_decimal_text((i + 1) as nat));
    let mut k: usize = 0;
    proof {
        assert(quoted.take(columns.len() as int) =~= quoted);
    }
    while k < columns.len()
        invariant
            k <= columns.len(),
            middle == "INSERT INTO "@ + table@ + " ("@ + spec_quoted_columns(columns@)
                + ") VALUES ("@,
            marks == Seq::new(columns@.len(), |i: int| "$"@ + spec_decimal_text((i + 1) as nat)),
            sql@ == middle + spec_join(marks.take(k as int), ", "@),
        decreases columns.len() - k,
    {
        proof {
            assert(marks.take(k + 1).drop_last() =~= marks.take(k as int));
            assert(marks.take(k + 1).last() == "$"@ + spec_decimal_text((k + 1) as nat));
            if k == 0 {
                assert(spec_join(marks.take(0), ", "@) =~= Seq::<char>::empty());
            }
        }
        if k > 0 {
            sql.append(", ");
        }
        sql.append("$");
        push_decimal(&mut sql, (k + 1) as u64);
        proof {
            assert(sql@ =~= middle + spec_join(marks.take(k + 1), ", "@));
        }
        k = k + 1;
    }
    sql.append(")");
    proof {
        assert(marks.take(columns.len() as int) =~= marks);
        assert(sql@ =~= "INSERT INTO "@ + table@ + " ("@ + spec_quoted_columns(columns@)
            + ") VALUES ("@ + spec_placeholders(columns@.len()) + ")"@);
    }
    sql
}

/// The pieces of `s` between the characters `sep`: one more piece than there are
/// separators, so an empty text has one empty piece.
pub open spec fn spec_split(s: Seq<char>, sep: char) -> Seq<Seq<char>>
    decreases s.len(),
{
    if s.len() == 0 {
        seq![Seq::<char>::empty()]
    } else {
        let front = spec_split(s.drop_last(), sep);
        if s.last() == sep {
            front.push(Seq::<char>::empty())
        } else {
            front.drop_last().push(front.last().push(s.last()))
        }
    }
}

/// The numbers of a list of mesh codes: the pieces between semicolons, each a
/// signed 64-bit number; nothing where a piece is none.
pub open spec fn spec_code_list(value: Seq<char>) -> Option<Seq<i64>> {
    let pieces = spec_split(value, ';');
    if forall|i: int| 0 <= i < pieces.len() ==> spec_parse_i64(#[trigger] pieces[i]) is Some {
        Some(Seq::new(pieces.len(), |i: int| spec_parse_i64(pieces[i])->Some_0))
    } else {
        None
    }
}

/// Reads a list of mesh codes that semicolons separate.
pub fn parse_code_list(value: &str) -> (r: Result<Vec<i64>, MeshError>)
    ensures
        match r {
            Ok(codes) => spec_code_list(value@) == Some(codes@),
            Err(e) => spec_code_list(value@) is None && e == MeshError::InvalidInteger,
        },
{
    let chars = chars_of(value);
    let len = chars.len();
    let mut codes: Vec<i64> = Vec::new();
    let mut start: usize = 0;
    let mut i: usize = 0;
    proof {
        assert(chars@.take(0) =~= Seq::<char>::empty());
        assert(chars@.subrange(0, 0) =~= Seq::<char>::empty());
    }
    while i < len
        invariant
            start <= i <= len == chars@.len(),
            chars@ == value@,
            spec_split(chars@.take(i as int), ';').len() == codes@.len() + 1,
            spec_split(chars@.take(i as int), ';').last() == chars@.subrange(start as int, i as int),
            forall|k: int|
                0 <= k < codes@.len() ==> spec_parse_i64(
                    #[trigger] spec_split(chars@.take(i as int), ';')[k],
                ) == Some(codes@[k]),
        decreases len - i,
    {
        let ghost before = spec_split(chars@.take(i as int), ';');
        let ghost after = spec_split(chars@.take(i + 1), ';');
        proof {
            assert(chars@.take(i + 1).drop_last() =~= chars@.take(i as int));
            assert(chars@.take(i + 1).last() == chars@[i as int]);
        }
        if chars[i] == ';' {
            let code = match parse_i64_chars(chars.as_slice(), start, i) {
                Some(code) => code,
                None => {
                    proof {
                        assert(after[codes@.len() as int] == before.last());
                        lemma_piece_stays(chars@, ';', i + 1, codes@.len() as int);
                    }
                    return Err(MeshError::InvalidInteger);
                },
            };
            proof {
                assert(after == before.push(Seq::<char>::empty()));
                assert(chars@.subrange(i + 1, i + 1) =~= Seq::<char>::empty());
                assert forall|k: int| 0 <= k < codes@.len() + 1 implies spec_parse_i64(
                    #[trigger] after[k],
                ) == Some(codes@.push(code)[k]) by {
                    assert(after[k] == before[k]);
                }
            }
            codes.push(code);
            start = i + 1;
        } else {
            proof {
                assert(after == before.drop_last().push(before.last().push(chars@[i as int])));
                assert(before.last().push(chars@[i as int]) =~= chars@.subrange(
                    start as int,
                    i + 1,
                ));
                assert forall|k: int| 0 <= k < codes@.len() implies spec_parse_i64(
                    #[trigger] after[k],
                ) == Some(codes@[k]) by {
                    assert(after[k] == before[k]);
                }
            }
        }
        i = i + 1;
    }
    proof {
        assert(chars@.take(len as int) =~= chars@);
    }
    let ghost pieces = spec_split(chars@, ';');
    let code = match parse_i64_chars(chars.as_slice(), start, len) {
        Some(code) => code,
        None => {
            return Err(MeshError::InvalidInteger);
        },
    };
    codes.push(code);
    proof {
        assert(codes@ =~= Seq::new(pieces.len(), |i: int| spec_parse_i64(pieces[i])->Some_0));
    }
    Ok(codes)
}

/// A piece that a separator has closed stays as it is when the text goes on.
pub proof fn lemma_piece_stays(s: Seq<char>, sep: char, n: int, k: int)
    requires
        0 <= n <= s.len(),
        0 <= k < spec_split(s.take(n), sep).len() - 1,
    ensures
        k < spec_split(s, sep).len(),
        spec_split(s, sep)[k] == spec_split(s.take(n), sep)[k],
    decreases s.len() - n,
{
    if n < s.len() {
        assert(s.take(n + 1).drop_last() =~= s.take(n));
        lemma_piece_stays(s, sep, n + 1, k);
    } else {
        assert(s.take(n) =~= s);
    }
}

/// A cell of a mesh table, read as its column asks.
#[derive(Debug, Clone, PartialEq, Eq)]
pub enum TableCell {
    /// A key, or the code that a cell was merged into.
    BigInt(Option<i64>),
    /// The kind of merging.
    SmallInt(Option<i16>),
    /// The codes that were merged into a cell.
    BigIntList(Option<Vec<i64>>),
    /// A statistic.
    Integer(Option<i32>),
}

/// Reads the cell `value` of the column `col`: a big integer for `KEY_CODE`
/// and `HTKSAKI`, a small integer for `HTKSYORI`, a list of codes for `GASSAN`
/// (none where the cell is empty), and an integer for every other column. But
/// for the list, a cell that is blank or a lone `*` holds nothing.
pub fn parse_table_cell(col: &str, value: &str) -> (r: Result<TableCell, MeshError>)
    ensures
        if col@ == "KEY_CODE"@ || col@ == "HTKSAKI"@ {
            match r {
                Ok(TableCell::BigInt(v)) => nullable_number(Ok::<Option<i64>, MeshError>(v))
                    == spec_parse_nullable(value@, i64::MIN as int, i64::MAX as int),
                Ok(_) => false,
                Err(e) => spec_parse_nullable(value@, i64::MIN as int, i64::MAX as int)
                    == Err::<Option<int>, MeshError>(e),
            }
        } else if col@ == "HTKSYORI"@ {
            match r {
                Ok(TableCell::SmallInt(v)) => nullable_number(Ok::<Option<i16>, MeshError>(v))
                    == spec_parse_nullable(value@, i16::MIN as int, i16::MAX as int),
                Ok(_) => false,
                Err(e) => spec_parse_nullable(value@, i16::MIN as int, i16::MAX as int)
                    == Err::<Option<int>, MeshError>(e),
            }
        } else if col@ == "GASSAN"@ {
            match r {
                Ok(TableCell::BigIntList(None)) => value@.len() == 0,
                Ok(TableCell::BigIntList(Some(codes))) => value@.len() > 0 && spec_code_list(value@)
                    == Some(codes@),
                Ok(_) => false,
                Err(e) => value@.len() > 0 && spec_code_list(value@) is None && e
                    == MeshError::InvalidInteger,
            }
        } else {
            match r {
                Ok(TableCell::Integer(v)) => nullable_number(Ok::<Option<i32>, MeshError>(v))
                    == spec_parse_nullable(value@, i32::MIN as int, i32::MAX as int),
                Ok(_) => false,
                Err(e) => spec_parse_nullable(value@, i32::MIN as int, i32::MAX as int)
                    == Err::<Option<int>, MeshError>(e),
            }
        },
{
    if same_text(col, "KEY_CODE") || same_text(col, "HTKSAKI") {
        match parse_nullable::<i64>(value) {
            Ok(v) => Ok(TableCell::BigInt(v)),
            Err(e) => Err(e),
        }
    } else if same_text(col, "HTKSYORI") {
        match parse_nullable::<i16>(value) {
            Ok(v) => Ok(TableCell::SmallInt(v)),
            Err(e) => Err(e),
        }
    } else if same_text(col, "GASSAN") {
        if value.unicode_len() == 0 {
            Ok(TableCell::BigIntList(None))
        } else {
            match parse_code_list(value) {
                Ok(codes) => Ok(TableCell::BigIntList(Some(codes))),
                Err(e) => Err(e),
            }
        }
    } else {
        match parse_nullable::<i32>(value) {
            Ok(v) => Ok(TableCell::Integer(v)),
            Err(e) => Err(e),
        }
    }
}

} // verus!
