//! Routes: which upstream a store path was found at, how routes are kept in the
//! database and how long they count.

use vstd::prelude::*;
use vstd::string::*;

use crate::double::Double;
use crate::number::{signed_decimal, signed_text};
use crate::registry::view_bytes;
use crate::text::{concat2, concat3, list_contains, views};
use crate::time::{
    in_calendar, lifetime, second_in_calendar, timestamp_in_range, Duration, Timestamp,
};

verus! {

/// Why the database gives nothing.
#[derive(Debug, PartialEq, Eq)]
pub enum DbError {
    /// SQLite failed.
    Sqlx(String),
    /// The directory of the database cannot be made.
    CreateDir(String),
    /// What is stored is no route.
    InvalidData(String),
}

impl DbError {
    /// What the error says of itself.
    pub open spec fn text(self) -> Seq<char> {
        match self {
            DbError::Sqlx(e) => "sqlite: "@ + e@,
            DbError::CreateDir(e) => "create database directory: "@ + e@,
            DbError::InvalidData(e) => "invalid stored route data: "@ + e@,
        }
    }

    /// What the error says of itself.
    pub fn message(&self) -> (out: String)
        ensures
            out@ == self.text(),
    {
        match self {
            DbError::Sqlx(e) => concat2("sqlite: ", e.as_str()),
            DbError::CreateDir(e) => concat2("create database directory: ", e.as_str()),
            DbError::InvalidData(e) => concat2("invalid stored route data: ", e.as_str()),
        }
    }
}

/// Which upstream a store path was found at.
pub struct RouteEntry {
    pub store_path: String,
    pub upstream_url: String,
    pub latency_ms: Double,
    pub latency_ema: Double,
    pub last_verified: Timestamp,
    pub query_count: u32,
    pub failure_count: u32,
    /// When the route ceases to count.
    pub ttl: Timestamp,
    pub nar_hash: String,
    pub nar_size: u64,
    /// The path under which the archive is asked for here.
    pub nar_url: String,
    /// The upstream's own path of the archive.
    pub upstream_nar_url: String,
    pub narinfo_bytes: Option<Vec<u8>>,
}

/// The contents of a route.
#[verifier::ext_equal]
pub struct RouteView {
    pub store_path: Seq<char>,
    pub upstream_url: Seq<char>,
    pub latency_ms: Double,
    pub latency_ema: Double,
    pub last_verified: int,
    pub query_count: u32,
    pub failure_count: u32,
    pub ttl: int,
    pub nar_hash: Seq<char>,
    pub nar_size: u64,
    pub nar_url: Seq<char>,
    pub upstream_nar_url: Seq<char>,
    pub narinfo_bytes: Option<Seq<u8>>,
}

impl View for RouteEntry {
    type V = RouteView;

    open spec fn view(&self) -> RouteView {
        RouteView {
            store_path: self.store_path@,
            upstream_url: self.upstream_url@,
            latency_ms: self.latency_ms,
            latency_ema: self.latency_ema,
            last_verified: self.last_verified@,
            query_count: self.query_count,
            failure_count: self.failure_count,
            ttl: self.ttl@,
            nar_hash: self.nar_hash@,
            nar_size: self.nar_size,
            nar_url: self.nar_url@,
            upstream_nar_url: self.upstream_nar_url@,
            narinfo_bytes: view_bytes(self.narinfo_bytes),
        }
    }
}

/// A copy of optional bytes.
pub fn copy_bytes(bytes: &Option<Vec<u8>>) -> (out: Option<Vec<u8>>)
    ensures
        view_bytes(out) == view_bytes(*bytes),
{
    match bytes {
        Some(b) => {
            let mut out: Vec<u8> = Vec::new();
            out.extend_from_slice(b.as_slice());
            assert(out@ =~= b@);
            Some(out)
        },
        None => None,
    }
}

impl Clone for RouteEntry {
    fn clone(&self) -> (out: Self)
        ensures
            out@ == self@,
    {
        RouteEntry {
            store_path: self.store_path.clone(),
            upstream_url: self.upstream_url.clone(),
            latency_ms: self.latency_ms,
            latency_ema: self.latency_ema,
            last_verified: self.last_verified,
            query_count: self.query_count,
            failure_count: self.failure_count,
            ttl: self.ttl,
            nar_hash: self.nar_hash.clone(),
            nar_size: self.nar_size,
            nar_url: self.nar_url.clone(),
            upstream_nar_url: self.upstream_nar_url.clone(),
            narinfo_bytes: copy_bytes(&self.narinfo_bytes),
        }
    }
}

impl RouteEntry {
    /// Whether the route still counts at `now`.
    pub fn is_valid(&self, now: &Timestamp) -> (yes: bool)
        ensures
            yes == (now@ < self@.ttl),
    {
        now.before(&self.ttl)
    }
}

// ---------------------------------------------------------------------------
// Rows
// ---------------------------------------------------------------------------
/// A route as the database holds it: counts and times are 64-bit integers.
pub struct RouteRow {
    pub store_path: String,
    pub upstream_url: String,
    pub latency_ms: Double,
    pub latency_ema: Double,
    pub query_count: i64,
    pub failure_count: i64,
    pub last_verified: i64,
    pub ttl: i64,
    pub nar_hash: String,
    pub nar_size: i64,
    pub nar_url: String,
    pub upstream_nar_url: String,
    pub narinfo_bytes: Option<Vec<u8>>,
}

/// The contents of a row.
#[verifier::ext_equal]
pub struct RowView {
    pub store_path: Seq<char>,
    pub upstream_url: Seq<char>,
    pub latency_ms: Double,
    pub latency_ema: Double,
    pub query_count: i64,
    pub failure_count: i64,
    pub last_verified: i64,
    pub ttl: i64,
    pub nar_hash: Seq<char>,
    pub nar_size: i64,
    pub nar_url: Seq<char>,
    pub upstream_nar_url: Seq<char>,
    pub narinfo_bytes: Option<Seq<u8>>,
}

impl View for RouteRow {
    type V = RowView;

    open spec fn view(&self) -> RowView {
        RowView {
            store_path: self.store_path@,
            upstream_url: self.upstream_url@,
            latency_ms: self.latency_ms,
            latency_ema: self.latency_ema,
            query_count: self.query_count,
            failure_count: self.failure_count,
            last_verified: self.last_verified,
            ttl: self.ttl,
            nar_hash: self.nar_hash@,
            nar_size: self.nar_size,
            nar_url: self.nar_url@,
            upstream_nar_url: self.upstream_nar_url@,
            narinfo_bytes: view_bytes(self.narinfo_bytes),
        }
    }
}

/// The whole seconds of a point in time.
pub open spec fn whole_secs(nanos: int) -> int {
    nanos / 1_000_000_000
}

/// The row of a route. Fractions of seconds are dropped; a size that is too
/// large is the largest.
pub open spec fn row_of(route: RouteView) -> RowView {
    RowView {
        store_path: route.store_path,
        upstream_url: route.upstream_url,
        latency_ms: route.latency_ms,
        latency_ema: route.latency_ema,
        query_count: route.query_count as i64,
        failure_count: route.failure_count as i64,
        last_verified: whole_secs(route.last_verified) as i64,
        ttl: whole_secs(route.ttl) as i64,
        nar_hash: route.nar_hash,
        nar_size: if route.nar_size > i64::MAX {
            i64::MAX
        } else {
            route.nar_size as i64
        },
        nar_url: route.nar_url,
        upstream_nar_url: route.upstream_nar_url,
        narinfo_bytes: route.narinfo_bytes,
    }
}

/// The row of a route.
pub fn route_to_row(route: &RouteEntry) -> (out: RouteRow)
    ensures
        out@ == row_of(route@),
{
    RouteRow {
        store_path: route.store_path.clone(),
        upstream_url: route.upstream_url.clone(),
        latency_ms: route.latency_ms,
        latency_ema: route.latency_ema,
        query_count: route.query_count as i64,
        failure_count: route.failure_count as i64,
        last_verified: route.last_verified.secs(),
        ttl: route.ttl.secs(),
        nar_hash: route.nar_hash.clone(),
        nar_size: if route.nar_size > i64::MAX as u64 {
            i64::MAX
        } else {
            route.nar_size as i64
        },
        nar_url: route.nar_url.clone(),
        upstream_nar_url: route.upstream_nar_url.clone(),
        narinfo_bytes: copy_bytes(&route.narinfo_bytes),
    }
}

/// What is said of a count that is out of range.
pub open spec fn out_of_range(field: Seq<char>, value: i64) -> Seq<char> {
    field + " out of range: "@ + signed_decimal(value as int)
}

/// What is said of a time that is out of range.
pub open spec fn time_out_of_range(field: Seq<char>, value: i64) -> Seq<char> {
    field + " timestamp out of range: "@ + signed_decimal(value as int)
}

/// The route that a row holds, or what is wrong with the first bad column.
pub open spec fn route_of(row: RowView) -> Result<RouteView, Seq<char>> {
    if !(0 <= row.query_count <= u32::MAX) {
        Err(out_of_range("query_count"@, row.query_count))
    } else if !(0 <= row.failure_count <= u32::MAX) {
        Err(out_of_range("failure_count"@, row.failure_count))
    } else if !second_in_calendar(row.last_verified as int) {
        Err(time_out_of_range("last_verified"@, row.last_verified))
    } else if !second_in_calendar(row.ttl as int) {
        Err(time_out_of_range("ttl"@, row.ttl))
    } else if row.nar_size < 0 {
        Err(out_of_range("nar_size"@, row.nar_size))
    } else {
        Ok(
            RouteView {
                store_path: row.store_path,
                upstream_url: row.upstream_url,
                latency_ms: row.latency_ms,
                latency_ema: row.latency_ema,
                last_verified: row.last_verified * 1_000_000_000,
                query_count: row.query_count as u32,
                failure_count: row.failure_count as u32,
                ttl: row.ttl * 1_000_000_000,
                nar_hash: row.nar_hash,
                nar_size: row.nar_size as u64,
                nar_url: row.nar_url,
                upstream_nar_url: row.upstream_nar_url,
                narinfo_bytes: row.narinfo_bytes,
            },
        )
    }
}

/// The point `value` seconds after 1970, which the column `field` holds, where
/// the calendar represents it.
pub fn timestamp(value: i64, field: &str) -> (out: Result<Timestamp, DbError>)
    ensures
        match out {
            Ok(t) => second_in_calendar(value as int) && t@ == value * 1_000_000_000,
            Err(e) => !second_in_calendar(value as int) && (e matches DbError::InvalidData(text)
                && text@ == time_out_of_range(field@, value)),
        },
{
    if timestamp_in_range(value) {
        Ok(Timestamp::new(value, 0))
    } else {
        Err(
            DbError::InvalidData(
                concat3(field, " timestamp out of range: ", signed_text(value).as_str()),
            ),
        )
    }
}

fn range_error(field: &str, value: i64) -> (out: DbError)
    ensures
        out matches DbError::InvalidData(text) && text@ == out_of_range(field@, value),
{
    DbError::InvalidData(concat3(field, " out of range: ", signed_text(value).as_str()))
}

/// The route that a row holds, or what is wrong with the first bad column.
pub fn row_to_route(row: &RouteRow) -> (out: Result<RouteEntry, DbError>)
    ensures
        match out {
            Ok(route) => route_of(row@) == Ok::<RouteView, Seq<char>>(route@),
            Err(e) => route_of(row@) is Err && (e matches DbError::InvalidData(text) && text@
                == route_of(row@)->Err_0),
        },
{
    if row.query_count < 0 || row.query_count > u32::MAX as i64 {
        return Err(range_error("query_count", row.query_count));
    }
    if row.failure_count < 0 || row.failure_count > u32::MAX as i64 {
        return Err(range_error("failure_count", row.failure_count));
    }
    let last_verified: Timestamp = match timestamp(row.last_verified, "last_verified") {
        Ok(t) => t,
        Err(e) => return Err(e),
    };
    let ttl: Timestamp = match timestamp(row.ttl, "ttl") {
        Ok(t) => t,
        Err(e) => return Err(e),
    };
    if row.nar_size < 0 {
        return Err(range_error("nar_size", row.nar_size));
    }
    Ok(
        RouteEntry {
            store_path: row.store_path.clone(),
            upstream_url: row.upstream_url.clone(),
            latency_ms: row.latency_ms,
            latency_ema: row.latency_ema,
            last_verified,
            query_count: row.query_count as u32,
            failure_count: row.failure_count as u32,
            ttl,
            nar_hash: row.nar_hash.clone(),
            nar_size: row.nar_size as u64,
            nar_url: row.nar_url.clone(),
            upstream_nar_url: row.upstream_nar_url.clone(),
            narinfo_bytes: copy_bytes(&row.narinfo_bytes),
        },
    )
}

/// What is left of a route in the database: fractions of seconds are dropped.
pub open spec fn in_whole_secs(route: RouteView) -> RouteView {
    RouteView {
        last_verified: whole_secs(route.last_verified) * 1_000_000_000,
        ttl: whole_secs(route.ttl) * 1_000_000_000,
        ..route
    }
}

/// A route reads back from its row as it was, but for fractions of seconds.
pub proof fn law_route_survives_the_database(route: RouteView)
    requires
        route.nar_size <= i64::MAX,
        in_calendar(route.last_verified),
        in_calendar(route.ttl),
    ensures
        route_of(row_of(route)) == Ok::<RouteView, Seq<char>>(in_whole_secs(route)),
{
}

/// The rows of the database, one for a store path, after `route` is written.
pub open spec fn written(rows: Map<Seq<char>, RowView>, route: RouteView) -> Map<
    Seq<char>,
    RowView,
> {
    rows.insert(route.store_path, row_of(route))
}

/// What the database gives for `store_path`.
pub open spec fn read_route(rows: Map<Seq<char>, RowView>, store_path: Seq<char>) -> Option<
    Result<RouteView, Seq<char>>,
> {
    if rows.contains_key(store_path) {
        Some(route_of(rows[store_path]))
    } else {
        None
    }
}

/// A route that was written is what is read for its store path, whatever stood
/// there before and whether or not it has expired; what is read for other paths
/// stays as it was.
pub proof fn law_written_route_is_read(
    rows: Map<Seq<char>, RowView>,
    route: RouteView,
    other: Seq<char>,
)
    requires
        route.nar_size <= i64::MAX,
        in_calendar(route.last_verified),
        in_calendar(route.ttl),
        other != route.store_path,
    ensures
        read_route(written(rows, route), route.store_path) == Some(
            Ok::<RouteView, Seq<char>>(in_whole_secs(route)),
        ),
        read_route(written(rows, route), other) == read_route(rows, other),
{
}

/// A route that was read back never counts longer than it did before.
pub proof fn law_stored_route_expires_no_later(route: RouteView, now: int)
    requires
        now < whole_secs(route.ttl) * 1_000_000_000,
    ensures
        now < route.ttl,
{
}

// ---------------------------------------------------------------------------
// Housekeeping
// ---------------------------------------------------------------------------
/// What the database knows of an upstream's health.
pub struct HealthRow {
    pub url: String,
    pub ema_latency: Double,
    pub consecutive_fails: i64,
    pub total_queries: i64,
}

/// The numbers with which the health of an upstream is stored.
pub fn health_counts(consecutive_fails: u32, total_queries: u64) -> (out: (i64, i64))
    ensures
        out.0 == consecutive_fails,
        out.1 == if total_queries > i64::MAX {
            i64::MAX as int
        } else {
            total_queries as int
        },
{
    let queries: i64 = if total_queries > i64::MAX as u64 {
        i64::MAX
    } else {
        total_queries as i64
    };
    (consecutive_fails as i64, queries)
}

/// Whether the routes are to be cut down to size after the write before which
/// `writes` writes were made: every hundredth write does.
pub fn eviction_due(writes: u64) -> (yes: bool)
    ensures
        yes == (writes % 100 == 99),
{
    writes % 100 == 99
}

/// Among any hundred writes in a row one cuts the routes down to size.
pub proof fn law_eviction_comes_round(first: nat)
    ensures
        exists|i: nat| i < 100 && #[trigger] ((first + i) % 100) == 99,
{
    let i = (99 - first % 100) as nat;
    assert((first + i) % 100 == 99);
}

/// How many routes are too many.
pub fn excess_routes(count: i64, max_entries: i64) -> (out: i64)
    requires
        count >= 0,
        max_entries >= 0,
    ensures
        out == if count > max_entries {
            count - max_entries
        } else {
            0
        },
{
    if count > max_entries {
        count - max_entries
    } else {
        0
    }
}

/// The second at which a negative entry made at `now` ends.
pub open spec fn entry_end(now: int, ttl: nat) -> int {
    whole_secs(now + lifetime(ttl))
}

/// A negative entry that ends at the second `end` still counts at `now`.
pub open spec fn entry_counts(end: int, now: int) -> bool {
    end > whole_secs(now)
}

/// When a store path that was not found is looked for again: the seconds at which
/// a negative entry made at `now` ends.
pub fn negative_expiry(now: &Timestamp, ttl: Duration) -> (out: i64)
    requires
        in_calendar(now@ + lifetime(ttl@)),
    ensures
        out == entry_end(now@, ttl@),
{
    now.expiry(ttl).secs()
}

/// Whether a negative entry that ends at `expires_at` still counts at `now`.
pub fn negative_counts(expires_at: i64, now: &Timestamp) -> (yes: bool)
    ensures
        yes == entry_counts(expires_at as int, now@),
{
    expires_at > now.secs()
}

/// The statement that gives `table`, which has the columns `existing`, the column
/// `column`; none where it has it already.
pub fn column_statement(
    existing: &Vec<String>,
    table: &str,
    column: &str,
    definition: &str,
) -> (out: Option<String>)
    ensures
        match out {
            Some(sql) => !views(existing@).contains(column@) && sql@ == "ALTER TABLE "@ + table@
                + " ADD COLUMN "@ + column@ + " "@ + definition@,
            None => views(existing@).contains(column@),
        },
{
    if list_contains(existing, column) {
        return None;
    }
    let mut sql: String = concat3("ALTER TABLE ", table, " ADD COLUMN ");
    sql.append(column);
    sql.append(" ");
    sql.append(definition);
    Some(sql)
}

/// A row is read as a route where its counts fit, its times are in the calendar
/// and its size is not negative; the first column that is not in order is named,
/// and what the others hold does not matter then.
pub proof fn law_rows_are_checked_in_order(row: RowView)
    ensures
        route_of(row) is Ok <==> 0 <= row.query_count <= 0xFFFF_FFFF && 0 <= row.failure_count
            <= 0xFFFF_FFFF && second_in_calendar(row.last_verified as int) && second_in_calendar(
            row.ttl as int,
        ) && 0 <= row.nar_size,
        !(0 <= row.query_count <= 0xFFFF_FFFF) ==> route_of(row) == Err::<RouteView, Seq<char>>(
            "query_count"@ + " out of range: "@ + signed_decimal(row.query_count as int),
        ),
        route_of(row) matches Ok(route) ==> {
            &&& route.store_path == row.store_path && route.upstream_url == row.upstream_url
            &&& route.nar_url == row.nar_url && route.upstream_nar_url == row.upstream_nar_url
            &&& route.nar_hash == row.nar_hash && route.nar_size == row.nar_size
            &&& route.latency_ms == row.latency_ms && route.latency_ema == row.latency_ema
            &&& route.query_count == row.query_count && route.failure_count == row.failure_count
            &&& route.last_verified == row.last_verified * 1_000_000_000
            &&& route.ttl == row.ttl * 1_000_000_000
            &&& route.narinfo_bytes == row.narinfo_bytes
        },
{
}

/// A path that was not found is looked for again when its entry is over: the entry
/// counts in every second before the one in which its lifetime ends, and not from
/// then on.
pub proof fn law_negative_entries_end(now: int, ttl: nat, later: int)
    ensures
        entry_counts(entry_end(now, ttl), later) <==> later / 1_000_000_000 < (now + lifetime(ttl))
            / 1_000_000_000,
        later >= now + lifetime(ttl) ==> !entry_counts(entry_end(now, ttl), later),
        later + 1_000_000_000 <= now + lifetime(ttl) ==> entry_counts(entry_end(now, ttl), later),
{
}

/// A size that is too large for the database is stored as the largest; every other
/// is stored as it is, and times to the second.
pub proof fn law_rows_hold_what_fits(route: RouteView)
    requires
        in_calendar(route.last_verified),
        in_calendar(route.ttl),
    ensures
        route.nar_size <= 0x7FFF_FFFF_FFFF_FFFF ==> row_of(route).nar_size == route.nar_size,
        route.nar_size > 0x7FFF_FFFF_FFFF_FFFF ==> row_of(route).nar_size == 0x7FFF_FFFF_FFFF_FFFF,
        row_of(route).ttl * 1_000_000_000 <= route.ttl < (row_of(route).ttl + 1) * 1_000_000_000,
        row_of(route).last_verified * 1_000_000_000 <= route.last_verified < (row_of(
            route,
        ).last_verified + 1) * 1_000_000_000,
{
}

} // verus!
