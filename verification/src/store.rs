//! The durable registry store: one SQL database holding downloads, chunks,
//! settings and events. The SQL text, the row encodings and decodings, and
//! the validation of everything read back are verified; the database calls
//! themselves go through narrow trusted wrappers. Reads accept only rows
//! that satisfy the model invariants.

use vstd::prelude::*;
use crate::model::{Download, ChunkRecord, spec_download_wf, spec_chunk_wf};
use crate::status::{DownloadStatus, DownloadProtocol, spec_status_from_str, spec_protocol_from_str};
use crate::strutil::{parse_u64, str_eq, fmt_u64, spec_fmt_u64, str_lex_le, spec_lex_le};

verus! {

#[verifier::external_type_specification]
#[verifier::external_body]
pub struct ExConnection(rusqlite::Connection);

/// Shared state naming the database file the registry persists into.
#[derive(Debug, Clone)]
pub struct DbState {
    pub path: String,
}

/// A store failure, carrying the database engine's message.
#[derive(Debug, Clone)]
pub enum DbError {
    Sql(String),
}

impl DbError {
    /// The database engine's message.
    pub fn message(&self) -> (r: String)
        ensures
            self matches DbError::Sql(m) ==> r@ == m@,
    {
        match self {
            DbError::Sql(m) => m.clone(),
        }
    }
}

/// Relies on `rusqlite::Connection::open`: opens or creates the database
/// file at the path.
#[verifier::external_body]
fn conn_open(path: &str) -> (r: Result<rusqlite::Connection, DbError>)
{
    rusqlite::Connection::open(path).map_err(|e| DbError::Sql(e.to_string()))
}

/// Relies on `rusqlite::Connection::busy_timeout`: waits up to the given
/// milliseconds when the database is locked. The engine takes the timeout
/// as signed 32-bit milliseconds and panics beyond that, so larger values
/// are excluded.
#[verifier::external_body]
fn conn_busy_timeout(conn: &rusqlite::Connection, ms: u64) -> (r: Result<(), DbError>)
    requires
        ms <= 0x7fffffff,
{
    conn.busy_timeout(std::time::Duration::from_millis(ms)).map_err(
        |e| DbError::Sql(e.to_string()),
    )
}

/// Relies on `rusqlite::Connection::pragma_update`: sets one pragma.
#[verifier::external_body]
fn conn_pragma(conn: &rusqlite::Connection, name: &str, value: &str) -> (r: Result<(), DbError>)
{
    conn.pragma_update(None, name, value).map_err(|e| DbError::Sql(e.to_string()))
}

/// Relies on `rusqlite::Connection::execute_batch`: runs several SQL
/// statements.
#[verifier::external_body]
fn conn_execute_batch(conn: &rusqlite::Connection, sql: &str) -> (r: Result<(), DbError>)
{
    conn.execute_batch(sql).map_err(|e| DbError::Sql(e.to_string()))
}

/// Relies on `rusqlite::Connection::execute`: runs one statement with text
/// parameters (absent ones binding as NULL), yielding the changed-row
/// count.
#[verifier::external_body]
fn conn_execute(conn: &rusqlite::Connection, sql: &str, params: &Vec<Option<String>>) -> (r:
    Result<usize, DbError>)
{
    conn.execute(sql, rusqlite::params_from_iter(params.iter())).map_err(
        |e| DbError::Sql(e.to_string()),
    )
}

/// Relies on `rusqlite::Statement::query_map`: runs one query with text
/// parameters and hands every row back as its columns, each read as an
/// optional string.
#[verifier::external_body]
fn conn_query(conn: &rusqlite::Connection, sql: &str, params: &Vec<Option<String>>) -> (r: Result<
    Vec<Vec<Option<String>>>,
    DbError,
>)
{
    let inner = || -> rusqlite::Result<Vec<Vec<Option<String>>>> {
        let mut stmt = conn.prepare(sql)?;
        let ncols = stmt.column_count();
        let rows = stmt.query_map(rusqlite::params_from_iter(params.iter()), |row| {
            (0..ncols).map(|i| row.get::<usize, Option<String>>(i)).collect()
        })?;
        rows.collect()
    };
    inner().map_err(|e| DbError::Sql(e.to_string()))
}

/// Relies on `rusqlite::Connection::transaction`: runs one statement for
/// each parameter list inside a single transaction, committing at the end.
#[verifier::external_body]
fn conn_execute_tx(
    conn: &mut rusqlite::Connection,
    sql: &str,
    params_list: &Vec<Vec<Option<String>>>,
) -> (r: Result<(), DbError>)
{
    let mut inner = || -> rusqlite::Result<()> {
        let tx = conn.transaction()?;
        for params in params_list.iter() {
            tx.execute(sql, rusqlite::params_from_iter(params.iter()))?;
        }
        tx.commit()
    };
    inner().map_err(|e| DbError::Sql(e.to_string()))
}

/// Opens the store with the concurrency posture the registry needs: a busy
/// wait of five seconds, foreign-key cascades, write-ahead journaling, and
/// normal fsync.
pub fn open_db(path: &str) -> (r: Result<rusqlite::Connection, DbError>) {
    let conn = match conn_open(path) {
        Ok(c) => c,
        Err(e) => {
            return Err(e);
        }
    };
    match conn_busy_timeout(&conn, 5000) {
        Ok(_) => {}
        Err(e) => {
            return Err(e);
        }
    }
    let _ = conn_execute_batch(&conn, "PRAGMA foreign_keys = ON;");
    let _ = conn_pragma(&conn, "journal_mode", "WAL");
    let _ = conn_pragma(&conn, "synchronous", "NORMAL");
    Ok(conn)
}

/// Creates the four tables, their indexes and the default settings, and
/// adds the columns that older databases lack, detected by introspection.
pub fn init_db(conn: &mut rusqlite::Connection) -> (r: Result<(), DbError>) {
    match conn_execute_batch(
        conn,
        "CREATE TABLE IF NOT EXISTS downloads (\
            id TEXT PRIMARY KEY,\
            url TEXT NOT NULL,\
            filename TEXT NOT NULL,\
            filepath TEXT NOT NULL,\
            size INTEGER NOT NULL DEFAULT 0,\
            downloaded INTEGER NOT NULL DEFAULT 0,\
            status TEXT NOT NULL DEFAULT 'queued',\
            protocol TEXT NOT NULL DEFAULT 'http',\
            speed INTEGER NOT NULL DEFAULT 0,\
            connections INTEGER NOT NULL DEFAULT 1,\
            created_at TEXT NOT NULL,\
            completed_at TEXT,\
            error_message TEXT,\
            info_hash TEXT,\
            metadata TEXT,\
            user_agent TEXT,\
            cookies TEXT,\
            category TEXT NOT NULL DEFAULT 'Other'\
        );\
        CREATE TABLE IF NOT EXISTS settings (\
            key TEXT PRIMARY KEY,\
            value TEXT NOT NULL\
        );\
        CREATE TABLE IF NOT EXISTS chunks (\
            id INTEGER PRIMARY KEY AUTOINCREMENT,\
            download_id TEXT NOT NULL,\
            start_byte INTEGER NOT NULL,\
            end_byte INTEGER NOT NULL,\
            downloaded INTEGER NOT NULL DEFAULT 0,\
            status TEXT NOT NULL DEFAULT 'pending',\
            FOREIGN KEY (download_id) REFERENCES downloads(id) ON DELETE CASCADE\
        );\
        CREATE TABLE IF NOT EXISTS history (\
            id INTEGER PRIMARY KEY AUTOINCREMENT,\
            download_id TEXT NOT NULL,\
            event_type TEXT NOT NULL,\
            timestamp TEXT NOT NULL,\
            details TEXT,\
            FOREIGN KEY (download_id) REFERENCES downloads(id) ON DELETE CASCADE\
        );\
        CREATE INDEX IF NOT EXISTS idx_downloads_status ON downloads(status);\
        CREATE INDEX IF NOT EXISTS idx_downloads_created ON downloads(created_at);\
        CREATE INDEX IF NOT EXISTS idx_chunks_download ON chunks(download_id);\
        CREATE INDEX IF NOT EXISTS idx_history_download ON history(download_id);\
        INSERT OR IGNORE INTO settings (key, value) VALUES\
            ('download_path', ''),\
            ('max_concurrent', '3'),\
            ('max_connections', '16'),\
            ('auto_start', 'true'),\
            ('notifications', 'true'),\
            ('speed_limit', '0'),\
            ('autocatch_enabled', 'true'),\
            ('torrent_encryption', 'false'),\
            ('open_folder_on_finish', 'false'),\
            ('shutdown_on_finish', 'false'),\
            ('sound_on_finish', 'false'),\
            ('theme', 'dark'),\
            ('scheduler_enabled', 'false'),\
            ('scheduler_start_time', '02:00'),\
            ('scheduler_pause_time', '08:00'),\
            ('category_filter', 'All'),\
            ('max_retries', '5'),\
            ('retry_delay', '5'),\
            ('cookie_browser', 'none'),\
            ('ask_location', 'false'),\
            ('auto_organize', 'false');",
    ) {
        Ok(_) => {}
        Err(e) => {
            return Err(e);
        }
    }
    // Older databases may miss columns added later; detect by
    // introspection and add them idempotently.
    match ensure_column(conn, "metadata", "ALTER TABLE downloads ADD COLUMN metadata TEXT") {
        Ok(_) => {}
        Err(e) => {
            return Err(e);
        }
    }
    ensure_column(
        conn,
        "category",
        "ALTER TABLE downloads ADD COLUMN category TEXT NOT NULL DEFAULT 'Other'",
    )
}

/// Adds a column to the downloads table unless introspection already finds
/// it.
/// Whether a row's first column carries exactly this name.
pub open spec fn spec_first_col_is(row: Seq<Option<String>>, name: Seq<char>) -> bool {
    row.len() >= 1 && (row[0] matches Some(s) && s@ == name)
}

/// Decides the introspection question: whether any returned
/// `pragma_table_info` row names this column.
pub fn column_present(rows: &Vec<Vec<Option<String>>>, name: &str) -> (r: bool)
    ensures
        r == exists|i: int|
            0 <= i < rows@.len() && spec_first_col_is((#[trigger] rows@[i])@, name@),
{
    let n = rows.len();
    let mut i: usize = 0;
    while i < n
        invariant
            n == rows@.len(),
            i <= n,
            forall|j: int| 0 <= j < i ==> !spec_first_col_is((#[trigger] rows@[j])@, name@),
        decreases n - i,
    {
        let row = &rows[i];
        if row.len() >= 1 {
            match &row[0] {
                Some(col) => {
                    if str_eq(col.as_str(), name) {
                        assert(spec_first_col_is(rows@[i as int]@, name@));
                        return true;
                    }
                }
                None => {}
            }
        }
        i = i + 1;
    }
    false
}

fn ensure_column(conn: &rusqlite::Connection, name: &str, alter_sql: &str) -> (r: Result<
    (),
    DbError,
>) {
    let empty: Vec<Option<String>> = Vec::new();
    let rows = match conn_query(conn, "SELECT name FROM pragma_table_info('downloads')", &empty) {
        Ok(rows) => rows,
        Err(e) => {
            return Err(e);
        }
    };
    if column_present(&rows, name) {
        Ok(())
    } else {
        match conn_execute(conn, alter_sql, &empty) {
            Ok(_) => Ok(()),
            Err(e) => Err(e),
        }
    }
}

/// The eighteen column values of a download row, in table order.
pub fn download_to_params(d: &Download) -> (r: Vec<Option<String>>)
    ensures
        r@.len() == 18,
        r@[0] == Some(d.id),
        r@[1] == Some(d.url),
        r@[2] == Some(d.filename),
        r@[3] == Some(d.filepath),
        d.size >= 0 ==> (r@[4] matches Some(s) && s@ == spec_fmt_u64(d.size as int)),
        d.downloaded >= 0 ==> (r@[5] matches Some(s) && s@ == spec_fmt_u64(d.downloaded as int)),
        d.speed >= 0 ==> (r@[8] matches Some(s) && s@ == spec_fmt_u64(d.speed as int)),
        d.connections >= 0 ==> (r@[9] matches Some(s) && s@ == spec_fmt_u64(
            d.connections as int,
        )),
        r@[6] matches Some(s) && s@ == crate::status::spec_status_str(d.status),
        r@[7] matches Some(s) && s@ == crate::status::spec_protocol_str(d.protocol),
        r@[10] == Some(d.created_at),
        r@[11] == d.completed_at,
        r@[12] == d.error_message,
        r@[13] == d.info_hash,
        r@[14] == d.metadata,
        r@[15] == d.user_agent,
        r@[16] == d.cookies,
        r@[17] == Some(d.category),
{
    let size_s = if d.size >= 0 {
        fmt_u64(d.size as u64)
    } else {
        fmt_u64(0)
    };
    let down_s = if d.downloaded >= 0 {
        fmt_u64(d.downloaded as u64)
    } else {
        fmt_u64(0)
    };
    let conn_s = if d.connections >= 0 {
        fmt_u64(d.connections as u64)
    } else {
        fmt_u64(0)
    };
    let speed_s = if d.speed >= 0 {
        fmt_u64(d.speed as u64)
    } else {
        fmt_u64(0)
    };
    let r: Vec<Option<String>> = vec![
        Some(d.id.clone()),
        Some(d.url.clone()),
        Some(d.filename.clone()),
        Some(d.filepath.clone()),
        Some(size_s),
        Some(down_s),
        Some(d.status.as_str().to_owned()),
        Some(d.protocol.as_str().to_owned()),
        Some(speed_s),
        Some(conn_s),
        Some(d.created_at.clone()),
        d.completed_at.clone(),
        d.error_message.clone(),
        d.info_hash.clone(),
        d.metadata.clone(),
        d.user_agent.clone(),
        d.cookies.clone(),
        Some(d.category.clone()),
    ];
    r
}

/// The number a text column denotes, when it is a decimal in `u64` range.
pub open spec fn spec_col_u64(c: Option<String>) -> Option<int> {
    match c {
        Some(s) => if crate::strutil::spec_parse_u64_ok(s@) {
            Some(crate::strutil::spec_digits_val(s@))
        } else {
            None
        },
        None => None,
    }
}

/// Whether a downloads row reads back as a well-formed `Download`: eighteen
/// columns, the required text columns present, the counters decimal and in
/// range, progress within a known size, and a completed row carrying its
/// timestamp and (when the size is known) all its bytes.
pub open spec fn spec_row_decodes(row: Seq<Option<String>>) -> bool {
    &&& row.len() == 18
    &&& row[0] is Some
    &&& row[1] is Some
    &&& row[2] is Some
    &&& row[3] is Some
    &&& row[6] is Some
    &&& row[7] is Some
    &&& row[10] is Some
    &&& row[17] is Some
    &&& spec_col_u64(row[4]) is Some
    &&& spec_col_u64(row[5]) is Some
    &&& spec_col_u64(row[8]) is Some
    &&& spec_col_u64(row[9]) is Some
    &&& ({
        let size = spec_col_u64(row[4]).unwrap();
        let down = spec_col_u64(row[5]).unwrap();
        let status = spec_status_from_str(row[6].unwrap()@);
        &&& size <= i64::MAX
        &&& down <= i64::MAX
        &&& spec_col_u64(row[8]).unwrap() <= i64::MAX
        &&& spec_col_u64(row[9]).unwrap() <= i32::MAX
        &&& (size > 0 ==> down <= size)
        &&& (status == DownloadStatus::Completed ==> {
            &&& row[11] is Some
            &&& (size > 0 ==> down == size)
        })
    })
}

/// The `Download` a decodable row denotes, column by column.
pub open spec fn spec_row_download(row: Seq<Option<String>>) -> Download {
    Download {
        id: row[0].unwrap(),
        url: row[1].unwrap(),
        filename: row[2].unwrap(),
        filepath: row[3].unwrap(),
        size: spec_col_u64(row[4]).unwrap() as i64,
        downloaded: spec_col_u64(row[5]).unwrap() as i64,
        status: spec_status_from_str(row[6].unwrap()@),
        protocol: spec_protocol_from_str(row[7].unwrap()@),
        speed: spec_col_u64(row[8]).unwrap() as i64,
        connections: spec_col_u64(row[9]).unwrap() as i32,
        created_at: row[10].unwrap(),
        completed_at: row[11],
        error_message: row[12],
        info_hash: row[13],
        metadata: row[14],
        user_agent: row[15],
        cookies: row[16],
        category: row[17].unwrap(),
    }
}

/// Reads one downloads row back: exactly the decodable rows yield a value,
/// and the value's every field is its column's parse.
pub fn download_from_row(row: &Vec<Option<String>>) -> (r: Option<Download>)
    ensures
        r is Some <==> spec_row_decodes(row@),
        r matches Some(d) ==> d == spec_row_download(row@) && spec_download_wf(d),
{
    if row.len() != 18 {
        return None;
    }
    let id = match &row[0] {
        Some(s) => s.clone(),
        None => {
            return None;
        }
    };
    let url = match &row[1] {
        Some(s) => s.clone(),
        None => {
            return None;
        }
    };
    let filename = match &row[2] {
        Some(s) => s.clone(),
        None => {
            return None;
        }
    };
    let filepath = match &row[3] {
        Some(s) => s.clone(),
        None => {
            return None;
        }
    };
    let size = match parse_col_u64(&row[4]) {
        Some(v) => v,
        None => {
            return None;
        }
    };
    let downloaded = match parse_col_u64(&row[5]) {
        Some(v) => v,
        None => {
            return None;
        }
    };
    let status = match &row[6] {
        Some(s) => DownloadStatus::from_str(s.as_str()),
        None => {
            return None;
        }
    };
    let protocol = match &row[7] {
        Some(s) => DownloadProtocol::from_str(s.as_str()),
        None => {
            return None;
        }
    };
    let speed = match parse_col_u64(&row[8]) {
        Some(v) => v,
        None => {
            return None;
        }
    };
    let connections = match parse_col_u64(&row[9]) {
        Some(v) => v,
        None => {
            return None;
        }
    };
    let created_at = match &row[10] {
        Some(s) => s.clone(),
        None => {
            return None;
        }
    };
    if size > i64::MAX as u64 || downloaded > i64::MAX as u64 || speed > i64::MAX as u64
        || connections > i32::MAX as u64 {
        return None;
    }
    if size > 0 && downloaded > size {
        return None;
    }
    let completed_at = clone_col(&row[11]);
    if matches!(status, DownloadStatus::Completed) {
        if completed_at.is_none() {
            return None;
        }
        if size > 0 && downloaded != size {
            return None;
        }
    }
    let d = Download {
        id,
        url,
        filename,
        filepath,
        size: size as i64,
        downloaded: downloaded as i64,
        status,
        protocol,
        speed: speed as i64,
        connections: connections as i32,
        created_at,
        completed_at,
        error_message: clone_col(&row[12]),
        info_hash: clone_col(&row[13]),
        metadata: clone_col(&row[14]),
        user_agent: clone_col(&row[15]),
        cookies: clone_col(&row[16]),
        category: match &row[17] {
            Some(s) => s.clone(),
            None => {
                return None;
            }
        },
    };
    Some(d)
}

fn clone_col(c: &Option<String>) -> (r: Option<String>)
    ensures
        r == *c,
{
    match c {
        Some(s) => Some(s.clone()),
        None => None,
    }
}

fn parse_col_u64(c: &Option<String>) -> (r: Option<u64>)
    ensures
        match r {
            Some(v) => spec_col_u64(*c) == Some(v as int),
            None => spec_col_u64(*c) is None,
        },
{
    match c {
        Some(s) => parse_u64(s.as_str()),
        None => None,
    }
}

/// Persists a new download row.
pub fn insert_download(conn: &rusqlite::Connection, d: &Download) -> (r: Result<(), DbError>) {
    let params = download_to_params(d);
    match conn_execute(
        conn,
        "INSERT INTO downloads (id, url, filename, filepath, size, downloaded, status, protocol, \
        speed, connections, created_at, completed_at, error_message, info_hash, metadata, \
        user_agent, cookies, category) \
        VALUES (?1, ?2, ?3, ?4, ?5, ?6, ?7, ?8, ?9, ?10, ?11, ?12, ?13, ?14, ?15, ?16, ?17, ?18)",
        &params,
    ) {
        Ok(_) => Ok(()),
        Err(e) => Err(e),
    }
}

/// The downloads denoted by a list of raw rows: each decodable row's
/// value, in row order, rows that do not decode dropped.
pub open spec fn spec_decoded_downloads(rows: Seq<Vec<Option<String>>>) -> Seq<Download>
    decreases rows.len(),
{
    if rows.len() == 0 {
        Seq::empty()
    } else {
        let rest = spec_decoded_downloads(rows.drop_last());
        if spec_row_decodes(rows.last()@) {
            rest.push(spec_row_download(rows.last()@))
        } else {
            rest
        }
    }
}

/// Decodes raw query rows into download rows: exactly the decodable rows,
/// in order.
pub fn decode_download_rows(rows: &Vec<Vec<Option<String>>>) -> (r: Vec<Download>)
    ensures
        r@ == spec_decoded_downloads(rows@),
        forall|i: int| 0 <= i < r@.len() ==> spec_download_wf(#[trigger] r@[i]),
{
    let n = rows.len();
    let mut out: Vec<Download> = Vec::new();
    let mut i: usize = 0;
    while i < n
        invariant
            n == rows@.len(),
            i <= n,
            out@ == spec_decoded_downloads(rows@.take(i as int)),
            forall|j: int| 0 <= j < out@.len() ==> spec_download_wf(#[trigger] out@[j]),
        decreases n - i,
    {
        proof {
            assert(rows@.take(i + 1).drop_last() =~= rows@.take(i as int));
            assert(rows@.take(i + 1).last() == rows@[i as int]);
        }
        match download_from_row(&rows[i]) {
            Some(d) => {
                out.push(d);
            }
            None => {}
        }
        i = i + 1;
    }
    proof {
        assert(rows@.take(n as int) =~= rows@);
    }
    out
}

/// The timestamp a listing is ordered by: completion time (empty when
/// absent), or creation time.
pub open spec fn spec_order_key(d: Download, by_completed: bool) -> Seq<char> {
    if by_completed {
        match d.completed_at {
            Some(s) => s@,
            None => Seq::empty(),
        }
    } else {
        d.created_at@
    }
}

fn order_key<'a>(d: &'a Download, by_completed: bool) -> (r: &'a str)
    ensures
        r@ == spec_order_key(*d, by_completed),
{
    if by_completed {
        match &d.completed_at {
            Some(s) => s.as_str(),
            None => {
                proof {
                    reveal_strlit("");
                    assert(""@ =~= Seq::<char>::empty());
                }
                ""
            }
        }
    } else {
        d.created_at.as_str()
    }
}

/// Keeps the rows that respect the query's promised shape: optionally only
/// completed rows, and only while the ordering timestamp never increases,
/// so the result is descending.
fn sift_rows(list: &Vec<Download>, by_completed: bool, only_completed: bool) -> (r: Vec<Download>)
    requires
        forall|i: int| 0 <= i < list@.len() ==> spec_download_wf(#[trigger] list@[i]),
    ensures
        forall|i: int| 0 <= i < r@.len() ==> spec_download_wf(#[trigger] r@[i]),
        forall|i: int| 0 <= i < r@.len() ==> list@.contains(#[trigger] r@[i]),
        only_completed ==> forall|i: int|
            0 <= i < r@.len() ==> (#[trigger] r@[i]).status == DownloadStatus::Completed,
        forall|i: int|
            0 <= i && i + 1 < r@.len() ==> spec_lex_le(
                spec_order_key(#[trigger] r@[i + 1], by_completed),
                spec_order_key(r@[i], by_completed),
            ),
{
    let n = list.len();
    let mut out: Vec<Download> = Vec::new();
    let mut i: usize = 0;
    while i < n
        invariant
            n == list@.len(),
            i <= n,
            forall|j: int| 0 <= j < list@.len() ==> spec_download_wf(#[trigger] list@[j]),
            forall|j: int| 0 <= j < out@.len() ==> spec_download_wf(#[trigger] out@[j]),
            forall|j: int| 0 <= j < out@.len() ==> list@.contains(#[trigger] out@[j]),
            only_completed ==> forall|j: int|
                0 <= j < out@.len() ==> (#[trigger] out@[j]).status == DownloadStatus::Completed,
            forall|j: int|
                0 <= j && j + 1 < out@.len() ==> spec_lex_le(
                    spec_order_key(#[trigger] out@[j + 1], by_completed),
                    spec_order_key(out@[j], by_completed),
                ),
        decreases n - i,
    {
        let d = &list[i];
        let completed_ok = !only_completed || matches!(d.status, DownloadStatus::Completed);
        if completed_ok {
            let on = out.len();
            let order_ok = if on == 0 {
                true
            } else {
                str_lex_le(order_key(d, by_completed), order_key(&out[on - 1], by_completed))
            };
            if order_ok {
                let ghost out0 = out@;
                let kept = d.duplicate();
                proof {
                    assert(list@[i as int] == kept);
                    assert(list@.contains(kept));
                }
                out.push(kept);
                proof {
                    assert forall|j: int| 0 <= j && j + 1 < out@.len() implies spec_lex_le(
                        spec_order_key(#[trigger] out@[j + 1], by_completed),
                        spec_order_key(out@[j], by_completed),
                    ) by {
                        if j + 1 < out0.len() {
                            assert(out@[j] == out0[j]);
                            assert(out@[j + 1] == out0[j + 1]);
                        } else {
                            assert(out@[j + 1] == kept);
                            assert(out@[j] == out0[out0.len() - 1]);
                        }
                    }
                }
            }
        }
        i = i + 1;
    }
    out
}

/// Every download row the store yields, well formed and listed newest
/// first: consecutive rows never increase in creation time.
pub fn get_all_downloads(conn: &rusqlite::Connection) -> (r: Result<Vec<Download>, DbError>)
    ensures
        r matches Ok(v) ==> {
            &&& forall|i: int| 0 <= i < v@.len() ==> spec_download_wf(#[trigger] v@[i])
            &&& forall|i: int|
                0 <= i && i + 1 < v@.len() ==> spec_lex_le(
                    (#[trigger] v@[i + 1]).created_at@,
                    v@[i].created_at@,
                )
        },
{
    let rows = match conn_query(
        conn,
        "SELECT id, url, filename, filepath, CAST(size AS TEXT), CAST(downloaded AS TEXT), \
        status, protocol, CAST(speed AS TEXT), CAST(connections AS TEXT), created_at, \
        completed_at, error_message, info_hash, metadata, user_agent, cookies, category \
        FROM downloads ORDER BY created_at DESC",
        &Vec::new(),
    ) {
        Ok(rows) => rows,
        Err(e) => {
            return Err(e);
        }
    };
    let decoded = decode_download_rows(&rows);
    Ok(sift_rows(&decoded, false, false))
}

/// The completed rows, well formed, all in status `Completed`, and listed
/// newest completion first.
pub fn get_history(conn: &rusqlite::Connection) -> (r: Result<Vec<Download>, DbError>)
    ensures
        r matches Ok(v) ==> {
            &&& forall|i: int| 0 <= i < v@.len() ==> spec_download_wf(#[trigger] v@[i])
            &&& forall|i: int|
                0 <= i < v@.len() ==> (#[trigger] v@[i]).status == DownloadStatus::Completed
            &&& forall|i: int|
                0 <= i && i + 1 < v@.len() ==> spec_lex_le(
                    spec_order_key(#[trigger] v@[i + 1], true),
                    spec_order_key(v@[i], true),
                )
        },
{
    let rows = match conn_query(
        conn,
        "SELECT id, url, filename, filepath, CAST(size AS TEXT), CAST(downloaded AS TEXT), \
        status, protocol, CAST(speed AS TEXT), CAST(connections AS TEXT), created_at, \
        completed_at, error_message, info_hash, metadata, user_agent, cookies, category \
        FROM downloads WHERE status = 'completed' ORDER BY completed_at DESC",
        &Vec::new(),
    ) {
        Ok(rows) => rows,
        Err(e) => {
            return Err(e);
        }
    };
    let decoded = decode_download_rows(&rows);
    Ok(sift_rows(&decoded, true, true))
}

/// The first row carrying this URL, if a well-formed one comes back.
pub fn find_download_by_url(conn: &rusqlite::Connection, url: &str) -> (r: Result<
    Option<Download>,
    DbError,
>)
    ensures
        r matches Ok(Some(d)) ==> spec_download_wf(d) && d.url@ == url@,
{
    let params: Vec<Option<String>> = vec![Some(url.to_owned())];
    let rows = match conn_query(
        conn,
        "SELECT id, url, filename, filepath, CAST(size AS TEXT), CAST(downloaded AS TEXT), \
        status, protocol, CAST(speed AS TEXT), CAST(connections AS TEXT), created_at, \
        completed_at, error_message, info_hash, metadata, user_agent, cookies, category \
        FROM downloads WHERE url = ?1",
        &params,
    ) {
        Ok(rows) => rows,
        Err(e) => {
            return Err(e);
        }
    };
    let decoded = decode_download_rows(&rows);
    let n = decoded.len();
    let mut i: usize = 0;
    while i < n
        invariant
            n == decoded@.len(),
            i <= n,
            forall|j: int| 0 <= j < n ==> spec_download_wf(#[trigger] decoded@[j]),
        decreases n - i,
    {
        if str_eq(decoded[i].url.as_str(), url) {
            return Ok(Some(decoded[i].duplicate()));
        }
        i = i + 1;
    }
    Ok(None)
}

/// The status column of one row, when present and readable.
pub fn get_download_status(conn: &rusqlite::Connection, id: &str) -> (r: Result<
    Option<DownloadStatus>,
    DbError,
>) {
    let params: Vec<Option<String>> = vec![Some(id.to_owned())];
    let rows = match conn_query(conn, "SELECT status FROM downloads WHERE id = ?1", &params) {
        Ok(rows) => rows,
        Err(e) => {
            return Err(e);
        }
    };
    if rows.len() > 0 && rows[0].len() > 0 {
        match &rows[0][0] {
            Some(s) => Ok(Some(DownloadStatus::from_str(s.as_str()))),
            None => Ok(None),
        }
    } else {
        Ok(None)
    }
}

/// Writes the status column of one row.
pub fn update_download_status(conn: &rusqlite::Connection, id: &str, status: DownloadStatus) -> (r:
    Result<(), DbError>) {
    let params: Vec<Option<String>> = vec![
        Some(status.as_str().to_owned()),
        Some(id.to_owned()),
    ];
    unit_execute(conn, "UPDATE downloads SET status = ?1 WHERE id = ?2", &params)
}

/// Writes one progress tick: byte count and speed.
pub fn update_download_progress(conn: &rusqlite::Connection, id: &str, downloaded: u64, speed: u64)
    -> (r: Result<(), DbError>) {
    let params: Vec<Option<String>> = vec![
        Some(fmt_u64(downloaded)),
        Some(fmt_u64(speed)),
        Some(id.to_owned()),
    ];
    unit_execute(conn, "UPDATE downloads SET downloaded = ?1, speed = ?2 WHERE id = ?3", &params)
}

/// Writes the discovered total size.
pub fn update_download_size(conn: &rusqlite::Connection, id: &str, size: u64) -> (r: Result<
    (),
    DbError,
>) {
    let params: Vec<Option<String>> = vec![Some(fmt_u64(size)), Some(id.to_owned())];
    unit_execute(conn, "UPDATE downloads SET size = ?1 WHERE id = ?2", &params)
}

/// Writes the discovered filename.
pub fn update_download_name(conn: &rusqlite::Connection, id: &str, name: &str) -> (r: Result<
    (),
    DbError,
>) {
    let params: Vec<Option<String>> = vec![Some(name.to_owned()), Some(id.to_owned())];
    unit_execute(conn, "UPDATE downloads SET filename = ?1 WHERE id = ?2", &params)
}

/// Writes the cookies used for the row's requests.
pub fn update_download_cookies(conn: &rusqlite::Connection, id: &str, cookies: &str) -> (r: Result<
    (),
    DbError,
>) {
    let params: Vec<Option<String>> = vec![Some(cookies.to_owned()), Some(id.to_owned())];
    unit_execute(conn, "UPDATE downloads SET cookies = ?1 WHERE id = ?2", &params)
}

/// Retains the failure message an `Error` row surfaces to the user.
pub fn update_download_error(conn: &rusqlite::Connection, id: &str, message: &str) -> (r: Result<
    (),
    DbError,
>) {
    let params: Vec<Option<String>> = vec![Some(message.to_owned()), Some(id.to_owned())];
    unit_execute(conn, "UPDATE downloads SET error_message = ?1 WHERE id = ?2", &params)
}

/// Removes one row; its chunks and events cascade away with it.
pub fn delete_download_by_id(conn: &rusqlite::Connection, id: &str) -> (r: Result<(), DbError>) {
    let params: Vec<Option<String>> = vec![Some(id.to_owned())];
    unit_execute(conn, "DELETE FROM downloads WHERE id = ?1", &params)
}

/// Removes every completed or failed row, and any chunk or event rows left
/// without a parent.
pub fn delete_finished_downloads(conn: &rusqlite::Connection) -> (r: Result<(), DbError>) {
    let empty: Vec<Option<String>> = Vec::new();
    match conn_execute(
        conn,
        "DELETE FROM downloads WHERE status = 'completed' OR status = 'error'",
        &empty,
    ) {
        Ok(_) => {}
        Err(e) => {
            return Err(e);
        }
    }
    let _ = conn_execute(
        conn,
        "DELETE FROM chunks WHERE download_id NOT IN (SELECT id FROM downloads)",
        &empty,
    );
    let _ = conn_execute(
        conn,
        "DELETE FROM history WHERE download_id NOT IN (SELECT id FROM downloads)",
        &empty,
    );
    Ok(())
}

/// One configuration value, when set.
pub fn get_setting(conn: &rusqlite::Connection, key: &str) -> (r: Result<Option<String>, DbError>) {
    let params: Vec<Option<String>> = vec![Some(key.to_owned())];
    let rows = match conn_query(conn, "SELECT value FROM settings WHERE key = ?1", &params) {
        Ok(rows) => rows,
        Err(e) => {
            return Err(e);
        }
    };
    if rows.len() > 0 && rows[0].len() > 0 {
        Ok(clone_col(&rows[0][0]))
    } else {
        Ok(None)
    }
}

/// Writes one configuration value.
pub fn set_setting(conn: &rusqlite::Connection, key: &str, value: &str) -> (r: Result<
    (),
    DbError,
>) {
    let params: Vec<Option<String>> = vec![Some(key.to_owned()), Some(value.to_owned())];
    unit_execute(conn, "INSERT OR REPLACE INTO settings (key, value) VALUES (?1, ?2)", &params)
}

/// The key-value pairs denoted by raw settings rows: each row with two
/// present text columns, in row order.
pub open spec fn spec_decoded_settings(rows: Seq<Vec<Option<String>>>) -> Seq<(String, String)>
    decreases rows.len(),
{
    if rows.len() == 0 {
        Seq::empty()
    } else {
        let rest = spec_decoded_settings(rows.drop_last());
        let row = rows.last()@;
        if row.len() >= 2 && row[0] is Some && row[1] is Some {
            rest.push((row[0].unwrap(), row[1].unwrap()))
        } else {
            rest
        }
    }
}

/// Decodes raw settings rows into key-value pairs, in order.
pub fn decode_setting_rows(rows: &Vec<Vec<Option<String>>>) -> (r: Vec<(String, String)>)
    ensures
        r@ == spec_decoded_settings(rows@),
{
    let n = rows.len();
    let mut out: Vec<(String, String)> = Vec::new();
    let mut i: usize = 0;
    while i < n
        invariant
            n == rows@.len(),
            i <= n,
            out@ == spec_decoded_settings(rows@.take(i as int)),
        decreases n - i,
    {
        proof {
            assert(rows@.take(i + 1).drop_last() =~= rows@.take(i as int));
            assert(rows@.take(i + 1).last() == rows@[i as int]);
        }
        let row = &rows[i];
        if row.len() >= 2 {
            match (&row[0], &row[1]) {
                (Some(k), Some(v)) => {
                    out.push((k.clone(), v.clone()));
                }
                _ => {}
            }
        }
        i = i + 1;
    }
    proof {
        assert(rows@.take(n as int) =~= rows@);
    }
    out
}

/// All configuration pairs, each decoded from one returned row.
pub fn get_all_settings(conn: &rusqlite::Connection) -> (r: Result<Vec<(String, String)>, DbError>) {
    let empty: Vec<Option<String>> = Vec::new();
    let rows = match conn_query(conn, "SELECT key, value FROM settings", &empty) {
        Ok(rows) => rows,
        Err(e) => {
            return Err(e);
        }
    };
    Ok(decode_setting_rows(&rows))
}

/// Whether any row claims this target path.
pub fn check_filepath_exists(conn: &rusqlite::Connection, filepath: &str) -> (r: Result<
    bool,
    DbError,
>) {
    let params: Vec<Option<String>> = vec![Some(filepath.to_owned())];
    let rows = match conn_query(
        conn,
        "SELECT CAST(COUNT(*) AS TEXT) FROM downloads WHERE filepath = ?1",
        &params,
    ) {
        Ok(rows) => rows,
        Err(e) => {
            return Err(e);
        }
    };
    if rows.len() > 0 && rows[0].len() > 0 {
        match &rows[0][0] {
            Some(s) => {
                match parse_u64(s.as_str()) {
                    Some(v) => Ok(v > 0),
                    None => Ok(false),
                }
            }
            None => Ok(false),
        }
    } else {
        Ok(false)
    }
}

/// Persists a freshly planned chunk batch in one transaction.
pub fn insert_chunks(conn: &mut rusqlite::Connection, chunks: &Vec<ChunkRecord>) -> (r: Result<
    (),
    DbError,
>)
    requires
        forall|i: int| 0 <= i < chunks@.len() ==> spec_chunk_wf(#[trigger] chunks@[i]),
{
    let n = chunks.len();
    let mut params_list: Vec<Vec<Option<String>>> = Vec::new();
    let mut i: usize = 0;
    while i < n
        invariant
            n == chunks@.len(),
            forall|j: int| 0 <= j < chunks@.len() ==> spec_chunk_wf(#[trigger] chunks@[j]),
            i <= n,
        decreases n - i,
    {
        let c = &chunks[i];
        let params: Vec<Option<String>> = vec![
            Some(c.download_id.clone()),
            Some(fmt_u64(c.start as u64)),
            Some(fmt_u64(c.end as u64)),
            Some(fmt_u64(c.downloaded as u64)),
            Some("pending".to_owned()),
        ];
        params_list.push(params);
        i = i + 1;
    }
    conn_execute_tx(
        conn,
        "INSERT INTO chunks (download_id, start_byte, end_byte, downloaded, status) \
        VALUES (?1, ?2, ?3, ?4, ?5)",
        &params_list,
    )
}

/// Writes one chunk's completed byte count, keyed by its start offset.
pub fn update_chunk_progress(
    conn: &rusqlite::Connection,
    download_id: &str,
    start: u64,
    downloaded: u64,
) -> (r: Result<(), DbError>) {
    let params: Vec<Option<String>> = vec![
        Some(fmt_u64(downloaded)),
        Some(download_id.to_owned()),
        Some(fmt_u64(start)),
    ];
    unit_execute(
        conn,
        "UPDATE chunks SET downloaded = ?1 WHERE download_id = ?2 AND start_byte = ?3",
        &params,
    )
}

/// The chunk rows of one download, in range order; only well-formed rows
/// are returned, each carrying the asked-for download id.
pub fn get_download_chunks(conn: &rusqlite::Connection, download_id: &str) -> (r: Result<
    Vec<ChunkRecord>,
    DbError,
>)
    ensures
        r matches Ok(v) ==> forall|i: int|
            0 <= i < v@.len() ==> spec_chunk_wf(#[trigger] v@[i]) && v@[i].download_id@
                == download_id@,
{
    let params: Vec<Option<String>> = vec![Some(download_id.to_owned())];
    let rows = match conn_query(
        conn,
        "SELECT CAST(start_byte AS TEXT), CAST(end_byte AS TEXT), CAST(downloaded AS TEXT) \
        FROM chunks WHERE download_id = ?1 ORDER BY start_byte",
        &params,
    ) {
        Ok(rows) => rows,
        Err(e) => {
            return Err(e);
        }
    };
    Ok(decode_chunk_rows(&rows, download_id))
}

/// Whether a chunk row decodes: three decimal columns forming a
/// well-formed range with progress inside it.
pub open spec fn spec_chunk_row_decodes(row: Seq<Option<String>>) -> bool {
    &&& row.len() == 3
    &&& spec_col_u64(row[0]) is Some
    &&& spec_col_u64(row[1]) is Some
    &&& spec_col_u64(row[2]) is Some
    &&& ({
        let s = spec_col_u64(row[0]).unwrap();
        let e = spec_col_u64(row[1]).unwrap();
        let g = spec_col_u64(row[2]).unwrap();
        s <= e && e < i64::MAX && g <= e - s + 1
    })
}

/// The offsets a decodable chunk row denotes: start, end and completed
/// bytes.
pub open spec fn spec_chunk_row_triple(row: Seq<Option<String>>) -> (int, int, int) {
    (
        spec_col_u64(row[0]).unwrap(),
        spec_col_u64(row[1]).unwrap(),
        spec_col_u64(row[2]).unwrap(),
    )
}

/// The triples denoted by a list of raw chunk rows, in row order, rows
/// that do not decode dropped.
pub open spec fn spec_decoded_chunk_triples(rows: Seq<Vec<Option<String>>>) -> Seq<(int, int, int)>
    decreases rows.len(),
{
    if rows.len() == 0 {
        Seq::empty()
    } else {
        let rest = spec_decoded_chunk_triples(rows.drop_last());
        if spec_chunk_row_decodes(rows.last()@) {
            rest.push(spec_chunk_row_triple(rows.last()@))
        } else {
            rest
        }
    }
}

/// Decodes raw chunk rows for one download: exactly the decodable rows, in
/// order, each carrying the asked-for id and its columns' parsed offsets.
pub fn decode_chunk_rows(rows: &Vec<Vec<Option<String>>>, download_id: &str) -> (r: Vec<
    ChunkRecord,
>)
    ensures
        r@.len() == spec_decoded_chunk_triples(rows@).len(),
        forall|j: int|
            0 <= j < r@.len() ==> {
                let t = spec_decoded_chunk_triples(rows@)[j];
                &&& (#[trigger] r@[j]).start == t.0
                &&& r@[j].end == t.1
                &&& r@[j].downloaded == t.2
                &&& r@[j].download_id@ == download_id@
                &&& spec_chunk_wf(r@[j])
            },
{
    let n = rows.len();
    let mut out: Vec<ChunkRecord> = Vec::new();
    let mut i: usize = 0;
    while i < n
        invariant
            n == rows@.len(),
            i <= n,
            out@.len() == spec_decoded_chunk_triples(rows@.take(i as int)).len(),
            forall|j: int|
                0 <= j < out@.len() ==> {
                    let t = spec_decoded_chunk_triples(rows@.take(i as int))[j];
                    &&& (#[trigger] out@[j]).start == t.0
                    &&& out@[j].end == t.1
                    &&& out@[j].downloaded == t.2
                    &&& out@[j].download_id@ == download_id@
                    &&& spec_chunk_wf(out@[j])
                },
        decreases n - i,
    {
        proof {
            assert(rows@.take(i + 1).drop_last() =~= rows@.take(i as int));
            assert(rows@.take(i + 1).last() == rows@[i as int]);
        }
        let row = &rows[i];
        if row.len() == 3 {
            let start = parse_col_u64(&row[0]);
            let end = parse_col_u64(&row[1]);
            let got = parse_col_u64(&row[2]);
            match (start, end, got) {
                (Some(s), Some(e), Some(g)) => {
                    if s <= e && e < i64::MAX as u64 && g <= e - s + 1 {
                        out.push(
                            ChunkRecord {
                                download_id: download_id.to_owned(),
                                start: s as i64,
                                end: e as i64,
                                downloaded: g as i64,
                            },
                        );
                    }
                }
                _ => {}
            }
        }
        i = i + 1;
        proof {
            let prev = spec_decoded_chunk_triples(rows@.take(i - 1));
            let cur = spec_decoded_chunk_triples(rows@.take(i as int));
            assert(forall|j: int| 0 <= j < prev.len() ==> cur[j] == prev[j]);
        }
    }
    proof {
        assert(rows@.take(n as int) =~= rows@);
    }
    out
}

/// Appends one event to the history log.
pub fn log_event(
    conn: &rusqlite::Connection,
    download_id: &str,
    event_type: &str,
    timestamp: &str,
    details: Option<&str>,
) -> (r: Result<(), DbError>) {
    let det: Option<String> = match details {
        Some(s) => Some(s.to_owned()),
        None => None,
    };
    let params: Vec<Option<String>> = vec![
        Some(download_id.to_owned()),
        Some(event_type.to_owned()),
        Some(timestamp.to_owned()),
        det,
    ];
    unit_execute(
        conn,
        "INSERT INTO history (download_id, event_type, timestamp, details) \
        VALUES (?1, ?2, ?3, ?4)",
        &params,
    )
}

/// The events of one download, newest first, as type, timestamp and
/// details.
pub fn get_download_events(conn: &rusqlite::Connection, download_id: &str) -> (r: Result<
    Vec<(String, String, Option<String>)>,
    DbError,
>) {
    let params: Vec<Option<String>> = vec![Some(download_id.to_owned())];
    let rows = match conn_query(
        conn,
        "SELECT event_type, timestamp, details FROM history WHERE download_id = ?1 \
        ORDER BY timestamp DESC",
        &params,
    ) {
        Ok(rows) => rows,
        Err(e) => {
            return Err(e);
        }
    };
    Ok(decode_event_rows(&rows))
}

/// The events denoted by raw history rows: each row with its type and
/// timestamp present, as type, timestamp and details, in row order.
pub open spec fn spec_decoded_events(rows: Seq<Vec<Option<String>>>) -> Seq<
    (String, String, Option<String>),
>
    decreases rows.len(),
{
    if rows.len() == 0 {
        Seq::empty()
    } else {
        let rest = spec_decoded_events(rows.drop_last());
        let row = rows.last()@;
        if row.len() >= 3 && row[0] is Some && row[1] is Some {
            rest.push((row[0].unwrap(), row[1].unwrap(), row[2]))
        } else {
            rest
        }
    }
}

/// Decodes raw history rows into events, in order.
pub fn decode_event_rows(rows: &Vec<Vec<Option<String>>>) -> (r: Vec<
    (String, String, Option<String>),
>)
    ensures
        r@ == spec_decoded_events(rows@),
{
    let n = rows.len();
    let mut out: Vec<(String, String, Option<String>)> = Vec::new();
    let mut i: usize = 0;
    while i < n
        invariant
            n == rows@.len(),
            i <= n,
            out@ == spec_decoded_events(rows@.take(i as int)),
        decreases n - i,
    {
        proof {
            assert(rows@.take(i + 1).drop_last() =~= rows@.take(i as int));
            assert(rows@.take(i + 1).last() == rows@[i as int]);
        }
        let row = &rows[i];
        if row.len() >= 3 {
            match (&row[0], &row[1]) {
                (Some(t), Some(ts)) => {
                    out.push((t.clone(), ts.clone(), clone_col(&row[2])));
                }
                _ => {}
            }
        }
        i = i + 1;
    }
    proof {
        assert(rows@.take(n as int) =~= rows@);
    }
    out
}

fn unit_execute(conn: &rusqlite::Connection, sql: &str, params: &Vec<Option<String>>) -> (r:
    Result<(), DbError>) {
    match conn_execute(conn, sql, params) {
        Ok(_) => Ok(()),
        Err(e) => Err(e),
    }
}

} // verus!
