use base64::Engine;
use vstd::prelude::*;

use crate::models::{CreateUser, LogQuery, StatsQuery, UpdateUser, User};

verus! {

#[verifier::external_type_specification]
#[verifier::external_body]
pub struct ExDecodeError(base64::DecodeError);

/// Bytes denoted by `input` in standard Base64 (RFC 4648 alphabet, padded),
/// or `None` when `input` is not valid standard Base64.
pub uninterp spec fn base64_standard_decode(input: Seq<u8>) -> Option<Seq<u8>>;

/// Character of the 6-bit value `v` in the standard Base64 alphabet
/// (RFC 4648: 'A'-'Z', 'a'-'z', '0'-'9', '+', '/').
pub open spec fn base64_digit(v: int) -> u8 {
    if v < 26 {
        (0x41 + v) as u8
    } else if v < 52 {
        (0x61 + v - 26) as u8
    } else if v < 62 {
        (0x30 + v - 52) as u8
    } else if v == 62 {
        0x2B
    } else {
        0x2F
    }
}

/// The padded standard Base64 encoding of `b` (RFC 4648): each group of
/// three bytes gives four characters of six bits each, and a last group of
/// one or two bytes is completed with '='.
pub open spec fn base64_standard_encode(b: Seq<u8>) -> Seq<u8>
    decreases b.len(),
{
    if b.len() == 0 {
        seq![]
    } else if b.len() == 1 {
        seq![base64_digit(b[0] as int / 4), base64_digit((b[0] % 4) * 16), 0x3Du8, 0x3Du8]
    } else if b.len() == 2 {
        seq![
            base64_digit(b[0] as int / 4),
            base64_digit((b[0] % 4) * 16 + b[1] / 16),
            base64_digit((b[1] % 16) * 4),
            0x3Du8,
        ]
    } else {
        seq![
            base64_digit(b[0] as int / 4),
            base64_digit((b[0] % 4) * 16 + b[1] / 16),
            base64_digit((b[1] % 16) * 4 + b[2] / 64),
            base64_digit(b[2] as int % 64),
        ] + base64_standard_encode(b.skip(3))
    }
}

/// `base64::engine::general_purpose::STANDARD.decode`: a deterministic
/// function of the input bytes, `Ok` exactly when they are valid standard
/// Base64. The engine decodes with canonical padding required, so the padded
/// standard encoding of any bytes decodes back to those bytes (the round trip
/// the crate documents); what other inputs decode to is left to the named
/// result.
#[verifier::external_body]
fn decode_base64_standard(input: &[u8]) -> (r: Result<Vec<u8>, base64::DecodeError>)
    ensures
        match r {
            Ok(v) => base64_standard_decode(input@) == Some(v@),
            Err(_) => base64_standard_decode(input@).is_none(),
        },
        match r {
            Ok(v) => forall|b: Seq<u8>| #[trigger] base64_standard_encode(b) == input@ ==> v@ == b,
            Err(_) => forall|b: Seq<u8>| #[trigger] base64_standard_encode(b) != input@,
        },
{
    base64::engine::general_purpose::STANDARD.decode(input)
}

/// "Basic "
pub open spec fn basic_prefix() -> Seq<char> {
    seq!['B', 'a', 's', 'i', 'c', ' ']
}

/// Whether a request with `Authorization` header text `header` may pass HTTP
/// Basic Auth: always when no user and password are configured; otherwise
/// only when the header is "Basic " followed by the standard Base64 encoding
/// of "user:pass".
pub open spec fn spec_basic_auth_allows(
    user: Option<Seq<char>>,
    pass: Option<Seq<char>>,
    header: Option<Seq<char>>,
) -> bool {
    match (user, pass) {
        (Some(u), Some(p)) => match header {
            Some(h) => {
                &&& h.len() >= 6
                &&& h.subrange(0, 6) == basic_prefix()
                &&& base64_standard_decode(vstd::utf8::encode_utf8(h.subrange(6, h.len() as int)))
                    == Some(vstd::utf8::encode_utf8(u + seq![':'] + p))
            },
            None => false,
        },
        _ => true,
    }
}

fn opt_view(s: &Option<String>) -> (r: Option<&str>)
    ensures
        match r {
            Some(v) => s.is_some() && v@ == s.unwrap()@,
            None => s.is_none(),
        },
{
    match s {
        Some(v) => Some(v.as_str()),
        None => None,
    }
}

fn bytes_equal(a: &[u8], b: &[u8]) -> (r: bool)
    ensures
        r == (a@ == b@),
{
    if a.len() != b.len() {
        return false;
    }
    let mut i: usize = 0;
    while i < a.len()
        invariant
            a@.len() == b@.len(),
            i <= a@.len(),
            forall|j: int| 0 <= j < i ==> a@[j] == b@[j],
        decreases a.len() - i,
    {
        if a[i] != b[i] {
            return false;
        }
        i += 1;
    }
    assert(a@ =~= b@);
    true
}

/// HTTP Basic Auth check. When `auth_user` and `auth_pass` are both
/// configured, the `Authorization` header (given as text, `None` when absent
/// or not visible ASCII) must carry "Basic " and the Base64 encoding of
/// "user:pass"; otherwise every request passes.
pub fn basic_auth_allows(auth_user: &Option<String>, auth_pass: &Option<String>, header: Option<&str>) -> (allowed: bool)
    ensures
        allowed == spec_basic_auth_allows(
            match auth_user {
                Some(u) => Some(u@),
                None => None,
            },
            match auth_pass {
                Some(p) => Some(p@),
                None => None,
            },
            match header {
                Some(h) => Some(h@),
                None => None,
            },
        ),
        ({
            &&& auth_user matches Some(u)
            &&& auth_pass matches Some(p)
            &&& header matches Some(h)
            &&& h@.len() >= 6
            &&& h@.subrange(0, 6) == basic_prefix()
            &&& vstd::utf8::encode_utf8(h@.subrange(6, h@.len() as int)) == base64_standard_encode(
                vstd::utf8::encode_utf8(u@ + seq![':'] + p@),
            )
        }) ==> allowed,
{
    let (user, pass) = match (opt_view(auth_user), opt_view(auth_pass)) {
        (Some(u), Some(p)) => (u, p),
        _ => return true,
    };
    let h = match header {
        Some(h) => h,
        None => return false,
    };
    let n = h.unicode_len();
    if n < 6 {
        return false;
    }
    if !(h.get_char(0) == 'B' && h.get_char(1) == 'a' && h.get_char(2) == 's' && h.get_char(3)
        == 'i' && h.get_char(4) == 'c' && h.get_char(5) == ' ') {
        proof {
            if h@.subrange(0, 6) == basic_prefix() {
                assert(h@[0] == h@.subrange(0, 6)[0]);
                assert(h@[1] == h@.subrange(0, 6)[1]);
                assert(h@[2] == h@.subrange(0, 6)[2]);
                assert(h@[3] == h@.subrange(0, 6)[3]);
                assert(h@[4] == h@.subrange(0, 6)[4]);
                assert(h@[5] == h@.subrange(0, 6)[5]);
            }
        }
        return false;
    }
    assert(h@.subrange(0, 6) =~= basic_prefix());
    let encoded = h.substring_char(6, n);
    let encoded_bytes = encoded.as_bytes();
    let res = decode_base64_standard(encoded_bytes);
    let ghost credentials = vstd::utf8::encode_utf8(user@ + seq![':'] + pass@);
    proof {
        assert(encoded_bytes@ == vstd::utf8::encode_utf8(encoded@));
        if base64_standard_encode(credentials) == encoded_bytes@ {
            assert(base64_standard_encode(credentials) == encoded_bytes@);
            assert(res matches Ok(v) && v@ == credentials);
        }
    }
    let decoded = match res {
        Ok(d) => d,
        Err(_) => return false,
    };
    let mut expected = String::from_str(user);
    proof {
        reveal_strlit(":");
    }
    expected.append(":");
    expected.append(pass);
    assert(expected@ =~= user@ + seq![':'] + pass@);
    bytes_equal(decoded.as_slice(), expected.as_str().as_bytes())
}

/// `s` contains character `c`.
pub open spec fn contains_char(s: Seq<char>, c: char) -> bool {
    exists|i: int| 0 <= i < s.len() && s[i] == c
}

/// `s` contains "..".
pub open spec fn contains_dot_dot(s: Seq<char>) -> bool {
    exists|i: int| 0 <= i < s.len() - 1 && #[trigger] s[i] == '.' && s[i + 1] == '.'
}

/// A snapshot path is served only when the station part has no '.' and no
/// '/', and the file name has no '/', no '\\' and no "..": no path traversal.
pub open spec fn spec_snapshot_path_allowed(station_id: Seq<char>, filename: Seq<char>) -> bool {
    !(contains_char(station_id, '.') || contains_char(station_id, '/') || contains_char(
        filename,
        '/',
    ) || contains_char(filename, '\\') || contains_dot_dot(filename))
}

fn has_char(s: &str, c: char) -> (r: bool)
    ensures
        r == contains_char(s@, c),
{
    let n = s.unicode_len();
    let mut i: usize = 0;
    while i < n
        invariant
            n == s@.len(),
            i <= n,
            forall|j: int| 0 <= j < i ==> s@[j] != c,
        decreases n - i,
    {
        if s.get_char(i) == c {
            return true;
        }
        i += 1;
    }
    false
}

fn has_dot_dot(s: &str) -> (r: bool)
    ensures
        r == contains_dot_dot(s@),
{
    let n = s.unicode_len();
    let mut i: usize = 0;
    while i < n && i + 1 < n
        invariant
            n == s@.len(),
            i <= n,
            forall|j: int| 0 <= j < i && j < n - 1 ==> !(#[trigger] s@[j] == '.' && s@[j + 1] == '.'),
        decreases n - i,
    {
        if s.get_char(i) == '.' && s.get_char(i + 1) == '.' {
            return true;
        }
        i += 1;
    }
    false
}

/// Sanitizes the path parts of a snapshot request: no path traversal.
pub fn snapshot_path_allowed(station_id: &str, filename: &str) -> (r: bool)
    ensures
        r == spec_snapshot_path_allowed(station_id@, filename@),
{
    !(has_char(station_id, '.') || has_char(station_id, '/') || has_char(filename, '/')
        || has_char(filename, '\\') || has_dot_dot(filename))
}

/// `s` ends with `suffix`.
pub open spec fn ends_with(s: Seq<char>, suffix: Seq<char>) -> bool {
    s.len() >= suffix.len() && s.subrange(s.len() - suffix.len(), s.len() as int) == suffix
}

/// Content type served for a snapshot file name.
pub open spec fn spec_snapshot_content_type(filename: Seq<char>) -> Seq<char> {
    if ends_with(filename, seq!['.', 'p', 'n', 'g']) {
        seq!['i', 'm', 'a', 'g', 'e', '/', 'p', 'n', 'g']
    } else if ends_with(filename, seq!['.', 'j', 'p', 'g']) || ends_with(
        filename,
        seq!['.', 'j', 'p', 'e', 'g'],
    ) {
        seq!['i', 'm', 'a', 'g', 'e', '/', 'j', 'p', 'e', 'g']
    } else {
        seq![
            'a', 'p', 'p', 'l', 'i', 'c', 'a', 't', 'i', 'o', 'n', '/', 'o', 'c', 't', 'e', 't',
            '-', 's', 't', 'r', 'e', 'a', 'm',
        ]
    }
}

fn str_ends_with(s: &str, suffix: &str) -> (r: bool)
    ensures
        r == ends_with(s@, suffix@),
{
    let n = s.unicode_len();
    let m = suffix.unicode_len();
    if n < m {
        return false;
    }
    let mut i: usize = 0;
    while i < m
        invariant
            n == s@.len(),
            m == suffix@.len(),
            m <= n,
            i <= m,
            forall|j: int| 0 <= j < i ==> s@[n - m + j] == suffix@[j],
        decreases m - i,
    {
        if s.get_char(n - m + i) != suffix.get_char(i) {
            assert(s@.subrange(n - m, n as int)[i as int] == s@[n - m + i]);
            return false;
        }
        i += 1;
    }
    assert(s@.subrange(n - m, n as int) =~= suffix@);
    true
}

/// Content type of a snapshot file, by its extension.
pub fn snapshot_content_type(filename: &str) -> (r: &'static str)
    ensures
        r@ == spec_snapshot_content_type(filename@),
{
    proof {
        reveal_strlit(".png");
        reveal_strlit(".jpg");
        reveal_strlit(".jpeg");
        reveal_strlit("image/png");
        reveal_strlit("image/jpeg");
        reveal_strlit("application/octet-stream");
    }
    let png = ".png";
    assert(png@ =~= seq!['.', 'p', 'n', 'g']);
    let jpg = ".jpg";
    assert(jpg@ =~= seq!['.', 'j', 'p', 'g']);
    let jpeg = ".jpeg";
    assert(jpeg@ =~= seq!['.', 'j', 'p', 'e', 'g']);
    if str_ends_with(filename, png) {
        let r = "image/png";
        assert(r@ =~= spec_snapshot_content_type(filename@));
        r
    } else if str_ends_with(filename, jpg) || str_ends_with(filename, jpeg) {
        let r = "image/jpeg";
        assert(r@ =~= spec_snapshot_content_type(filename@));
        r
    } else {
        let r = "application/octet-stream";
        assert(r@ =~= spec_snapshot_content_type(filename@));
        r
    }
}


/// SQL selecting logs, filtered by station and/or user when asked, newest
/// first, with LIMIT and OFFSET parameters.
pub open spec fn spec_list_logs_sql(by_station: bool, by_user: bool) -> Seq<char> {
    let base =
        "SELECT id, user_id, created_at, station, length, consumption, snapshot_path FROM logs"@;
    let filter = if by_station && by_user {
        " WHERE "@ + "station = ?"@ + " AND "@ + "user_id = ?"@
    } else if by_station {
        " WHERE "@ + "station = ?"@
    } else if by_user {
        " WHERE "@ + "user_id = ?"@
    } else {
        Seq::empty()
    };
    base + filter + " ORDER BY created_at DESC LIMIT ? OFFSET ?"@
}

/// Builds the SQL of the log listing for the filters present in `q`.
pub fn list_logs_sql(q: &LogQuery) -> (sql: String)
    ensures
        sql@ == spec_list_logs_sql(q.station.is_some(), q.user_id.is_some()),
{
    let mut sql = String::from_str(
        "SELECT id, user_id, created_at, station, length, consumption, snapshot_path FROM logs",
    );
    let by_station = q.station.is_some();
    let by_user = q.user_id.is_some();
    if by_station || by_user {
        sql.append(" WHERE ");
        if by_station {
            sql.append("station = ?");
        }
        if by_station && by_user {
            sql.append(" AND ");
        }
        if by_user {
            sql.append("user_id = ?");
        }
    }
    sql.append(" ORDER BY created_at DESC LIMIT ? OFFSET ?");
    proof {
        let base =
            "SELECT id, user_id, created_at, station, length, consumption, snapshot_path FROM logs"@;
        if by_station && by_user {
            assert(sql@ =~= base + (" WHERE "@ + "station = ?"@ + " AND "@ + "user_id = ?"@)
                + " ORDER BY created_at DESC LIMIT ? OFFSET ?"@);
        } else if by_station {
            assert(sql@ =~= base + (" WHERE "@ + "station = ?"@)
                + " ORDER BY created_at DESC LIMIT ? OFFSET ?"@);
        } else if by_user {
            assert(sql@ =~= base + (" WHERE "@ + "user_id = ?"@)
                + " ORDER BY created_at DESC LIMIT ? OFFSET ?"@);
        } else {
            assert(sql@ =~= base + Seq::<char>::empty()
                + " ORDER BY created_at DESC LIMIT ? OFFSET ?"@);
        }
    }
    sql
}

/// Page of the log listing: (limit, offset), 100 and 0 by default.
pub fn log_page(q: &LogQuery) -> (r: (i64, i64))
    ensures
        r.0 == (match q.limit {
            Some(l) => l,
            None => 100,
        }),
        r.1 == (match q.offset {
            Some(o) => o,
            None => 0,
        }),
{
    let limit = match q.limit {
        Some(l) => l,
        None => 100,
    };
    let offset = match q.offset {
        Some(o) => o,
        None => 0,
    };
    (limit, offset)
}

/// SQL of the per-user statistics, with the date and station filters asked.
pub open spec fn spec_stats_sql(from: bool, to: bool, station: bool) -> Seq<char> {
    stats_select_sql()@ + (if from {
        " AND l.created_at >= ?"@
    } else {
        Seq::empty()
    }) + (if to {
        " AND l.created_at <= ?"@
    } else {
        Seq::empty()
    }) + (if station {
        " AND l.station = ?"@
    } else {
        Seq::empty()
    }) + " GROUP BY l.user_id ORDER BY total_liters DESC"@
}

/// The unfiltered part of the statistics query.
pub open spec fn stats_select_sql() -> &'static str {
    "SELECT
            l.user_id,
            u.name AS user_name,
            COALESCE(SUM(l.consumption), 0.0) AS total_liters,
            COALESCE(SUM(l.length), 0) AS total_seconds,
            COUNT(*) AS refuel_count
        FROM logs l
        JOIN users u ON u.id = l.user_id
        WHERE 1=1"
}

/// Builds the SQL of the statistics for the filters present in `q`.
pub fn stats_sql(q: &StatsQuery) -> (sql: String)
    ensures
        sql@ == spec_stats_sql(q.from.is_some(), q.to.is_some(), q.station.is_some()),
{
    let mut sql = String::from_str(
        "SELECT
            l.user_id,
            u.name AS user_name,
            COALESCE(SUM(l.consumption), 0.0) AS total_liters,
            COALESCE(SUM(l.length), 0) AS total_seconds,
            COUNT(*) AS refuel_count
        FROM logs l
        JOIN users u ON u.id = l.user_id
        WHERE 1=1",
    );
    let ghost s0 = sql@;
    assert(s0 == stats_select_sql()@);
    if q.from.is_some() {
        sql.append(" AND l.created_at >= ?");
    }
    let ghost s1 = sql@;
    if q.to.is_some() {
        sql.append(" AND l.created_at <= ?");
    }
    let ghost s2 = sql@;
    if q.station.is_some() {
        sql.append(" AND l.station = ?");
    }
    let ghost s3 = sql@;
    sql.append(" GROUP BY l.user_id ORDER BY total_liters DESC");
    proof {
        let f = if q.from.is_some() {
            " AND l.created_at >= ?"@
        } else {
            Seq::<char>::empty()
        };
        let t = if q.to.is_some() {
            " AND l.created_at <= ?"@
        } else {
            Seq::<char>::empty()
        };
        let st = if q.station.is_some() {
            " AND l.station = ?"@
        } else {
            Seq::<char>::empty()
        };
        assert(s1 =~= s0 + f);
        assert(s2 =~= s0 + f + t);
        assert(s3 =~= s0 + f + t + st);
    }
    sql
}

/// A user as created from `payload`, with the id the database assigned
/// (`rowid`, taken as `i32`).
pub fn user_from_create(rowid: i64, payload: CreateUser) -> (u: User)
    ensures
        u.id == rowid as i32,
        u.name == payload.name,
        u.tag == payload.tag,
        u.station1 == payload.station1,
        u.station2 == payload.station2,
{
    User {
        id: rowid as i32,
        name: payload.name,
        tag: payload.tag,
        station1: payload.station1,
        station2: payload.station2,
    }
}

/// The value of an update field, or the current value when absent.
pub open spec fn updated<T>(new: Option<T>, current: T) -> T {
    match new {
        Some(v) => v,
        None => current,
    }
}

/// User `id` after applying `payload` to its `current` record: fields
/// absent from the payload keep their current value.
pub fn apply_user_update(id: i32, current: User, payload: UpdateUser) -> (u: User)
    ensures
        u.id == id,
        u.name == updated(payload.name, current.name),
        u.tag == updated(payload.tag, current.tag),
        u.station1 == updated(payload.station1, current.station1),
        u.station2 == updated(payload.station2, current.station2),
{
    let name = match payload.name {
        Some(v) => v,
        None => current.name,
    };
    let tag = match payload.tag {
        Some(v) => v,
        None => current.tag,
    };
    let station1 = match payload.station1 {
        Some(v) => v,
        None => current.station1,
    };
    let station2 = match payload.station2 {
        Some(v) => v,
        None => current.station2,
    };
    User { id, name, tag, station1, station2 }
}

} // verus!
