//! Service-layer rules: error taxonomy and the validation decisions made
//! before a record reaches storage.
//!
//! The CRUD edge performs the database work; every rule it enforces —
//! which names are acceptable, which coordinate and frequency ranges are
//! physical, when a duplicate is refused, how a storage failure is
//! classified — is decided here on plain values.  Coordinates are held as
//! fixed-point micro-degrees and frequencies in hertz, so the checks are
//! exact.

use vstd::prelude::*;
use crate::commands::{i64_to_string, spec_i64_digits};

verus! {

/// Storage-level failure, classified from the database driver's message.
#[derive(Debug, PartialEq, Eq)]
pub enum RepositoryError {
    /// Database or driver failure.
    Database(String),
    /// No rows were affected when updating or deleting.
    NotFound(String),
    /// Data integrity or constraint violation, such as a duplicate key.
    Conflict(String),
}

/// Service-level failure, surfaced to the HTTP edge.
#[derive(Debug, PartialEq, Eq)]
pub enum ServiceError {
    /// Input validation or user-side error.
    BadRequest(String),
    /// Resource already exists or business conflict.
    Conflict(String),
    /// Resource not found.
    NotFound(String),
    /// Database or unexpected internal error.
    Internal(String),
}

impl RepositoryError {
    /// The human-readable form of this error.
    pub fn message(&self) -> (r: String)
        ensures
            self matches RepositoryError::Database(m) ==> r@ == "Database error: "@ + m@,
            self matches RepositoryError::NotFound(m) ==> r@ == "Not found: "@ + m@,
            self matches RepositoryError::Conflict(m) ==> r@ == "Conflict: "@ + m@,
    {
        match self {
            RepositoryError::Database(m) => {
                let mut s = String::from_str("Database error: ");
                s.append(m.as_str());
                s
            },
            RepositoryError::NotFound(m) => {
                let mut s = String::from_str("Not found: ");
                s.append(m.as_str());
                s
            },
            RepositoryError::Conflict(m) => {
                let mut s = String::from_str("Conflict: ");
                s.append(m.as_str());
                s
            },
        }
    }
}

impl ServiceError {
    /// The human-readable form of this error.
    pub fn message(&self) -> (r: String)
        ensures
            self matches ServiceError::BadRequest(m) ==> r@ == "Bad request: "@ + m@,
            self matches ServiceError::Conflict(m) ==> r@ == "Conflict: "@ + m@,
            self matches ServiceError::NotFound(m) ==> r@ == "Not found: "@ + m@,
            self matches ServiceError::Internal(m) ==> r@ == "Internal error: "@ + m@,
    {
        match self {
            ServiceError::BadRequest(m) => {
                let mut s = String::from_str("Bad request: ");
                s.append(m.as_str());
                s
            },
            ServiceError::Conflict(m) => {
                let mut s = String::from_str("Conflict: ");
                s.append(m.as_str());
                s
            },
            ServiceError::NotFound(m) => {
                let mut s = String::from_str("Not found: ");
                s.append(m.as_str());
                s
            },
            ServiceError::Internal(m) => {
                let mut s = String::from_str("Internal error: ");
                s.append(m.as_str());
                s
            },
        }
    }
}

impl core::convert::From<RepositoryError> for ServiceError {
    /// Storage failures surface as service failures of the matching kind;
    /// an unclassified database error is internal.
    fn from(e: RepositoryError) -> (r: ServiceError) {
        match e {
            RepositoryError::NotFound(m) => ServiceError::NotFound(m),
            RepositoryError::Conflict(m) => ServiceError::Conflict(m),
            RepositoryError::Database(m) => ServiceError::Internal(m),
        }
    }
}

impl vstd::std_specs::convert::FromSpecImpl<RepositoryError> for ServiceError {
    open spec fn obeys_from_spec() -> bool {
        true
    }

    open spec fn from_spec(e: RepositoryError) -> ServiceError {
        match e {
            RepositoryError::NotFound(m) => ServiceError::NotFound(m),
            RepositoryError::Conflict(m) => ServiceError::Conflict(m),
            RepositoryError::Database(m) => ServiceError::Internal(m),
        }
    }
}

fn collect_chars(s: &str) -> (v: Vec<char>)
    ensures
        v@ == s@,
{
    let n = s.unicode_len();
    let mut v: Vec<char> = Vec::new();
    let mut i: usize = 0;
    while i < n
        invariant
            0 <= i <= n,
            n == s@.len(),
            v@ == s@.take(i as int),
        decreases n - i,
    {
        v.push(s.get_char(i));
        proof {
            assert(v@ =~= s@.take(i + 1));
        }
        i = i + 1;
    }
    proof {
        assert(v@ =~= s@);
    }
    v
}

/// ASCII whitespace, the kind trimmed off names and TLE strings.
pub open spec fn spec_is_space(c: char) -> bool {
    c == ' ' || c == '\t' || c == '\n' || c == '\r'
}

/// A string is blank when every character is whitespace — equivalently,
/// when trimming leaves it empty.
pub open spec fn spec_blank(s: Seq<char>) -> bool {
    forall|i: int| 0 <= i < s.len() ==> spec_is_space(#[trigger] s[i])
}

/// Whether `s` trims to nothing.
pub fn is_blank(s: &str) -> (r: bool)
    ensures
        r == spec_blank(s@),
{
    let chars = collect_chars(s);
    let n = chars.len();
    let mut i: usize = 0;
    while i < n
        invariant
            0 <= i <= n,
            n == s@.len(),
            chars@ == s@,
            forall|j: int| 0 <= j < i ==> spec_is_space(#[trigger] s@[j]),
        decreases n - i,
    {
        let c = chars[i];
        if !(c == ' ' || c == '\t' || c == '\n' || c == '\r') {
            return false;
        }
        i = i + 1;
    }
    true
}

/// How many whitespace characters `s` starts with.
pub open spec fn spec_leading_spaces(s: Seq<char>) -> int
    decreases s.len(),
{
    if s.len() == 0 {
        0
    } else if spec_is_space(s[0]) {
        1 + spec_leading_spaces(s.drop_first())
    } else {
        0
    }
}

/// How many whitespace characters `s` ends with.
pub open spec fn spec_trailing_spaces(s: Seq<char>) -> int
    decreases s.len(),
{
    if s.len() == 0 {
        0
    } else if spec_is_space(s.last()) {
        1 + spec_trailing_spaces(s.drop_last())
    } else {
        0
    }
}

/// `s` without its leading and trailing whitespace.
pub open spec fn spec_trim(s: Seq<char>) -> Seq<char> {
    let t = s.skip(spec_leading_spaces(s));
    t.take(t.len() - spec_trailing_spaces(t))
}

proof fn lemma_leading_spaces_of(s: Seq<char>, k: int)
    requires
        0 <= k <= s.len(),
        forall|i: int| 0 <= i < k ==> spec_is_space(#[trigger] s[i]),
        k < s.len() ==> !spec_is_space(s[k]),
    ensures
        spec_leading_spaces(s) == k,
    decreases s.len(),
{
    if s.len() == 0 {
    } else if k == 0 {
    } else {
        assert(spec_is_space(s[0]));
        let rest = s.drop_first();
        assert forall|i: int| 0 <= i < k - 1 implies spec_is_space(#[trigger] rest[i]) by {
            assert(rest[i] == s[i + 1]);
        }
        if k - 1 < rest.len() {
            assert(rest[k - 1] == s[k]);
        }
        lemma_leading_spaces_of(rest, k - 1);
    }
}

proof fn lemma_trailing_spaces_of(s: Seq<char>, k: int)
    requires
        0 <= k <= s.len(),
        forall|i: int| s.len() - k <= i < s.len() ==> spec_is_space(#[trigger] s[i]),
        k < s.len() ==> !spec_is_space(s[s.len() - k - 1]),
    ensures
        spec_trailing_spaces(s) == k,
    decreases s.len(),
{
    if s.len() == 0 {
    } else if k == 0 {
        assert(!spec_is_space(s.last()));
    } else {
        assert(spec_is_space(s.last()));
        let rest = s.drop_last();
        assert forall|i: int| rest.len() - (k - 1) <= i < rest.len() implies spec_is_space(
            #[trigger] rest[i],
        ) by {
            assert(rest[i] == s[i]);
        }
        if k - 1 < rest.len() {
            assert(rest[rest.len() - (k - 1) - 1] == s[s.len() - k - 1]);
        }
        lemma_trailing_spaces_of(rest, k - 1);
    }
}

proof fn lemma_leading_spaces_bounds(s: Seq<char>)
    ensures
        0 <= spec_leading_spaces(s) <= s.len(),
        forall|j: int| 0 <= j < spec_leading_spaces(s) ==> spec_is_space(#[trigger] s[j]),
        spec_leading_spaces(s) < s.len() ==> !spec_is_space(s[spec_leading_spaces(s)]),
    decreases s.len(),
{
    if s.len() == 0 {
    } else if spec_is_space(s[0]) {
        let rest = s.drop_first();
        lemma_leading_spaces_bounds(rest);
        let p = spec_leading_spaces(s);
        assert forall|j: int| 0 <= j < p implies spec_is_space(#[trigger] s[j]) by {
            if j > 0 {
                assert(rest[j - 1] == s[j]);
            }
        }
        if p < s.len() {
            assert(rest[p - 1] == s[p]);
        }
    } else {
    }
}

proof fn lemma_trailing_spaces_bounds(s: Seq<char>)
    ensures
        0 <= spec_trailing_spaces(s) <= s.len(),
        forall|j: int|
            s.len() - spec_trailing_spaces(s) <= j < s.len() ==> spec_is_space(#[trigger] s[j]),
        spec_trailing_spaces(s) < s.len() ==> !spec_is_space(
            s[s.len() - spec_trailing_spaces(s) - 1],
        ),
    decreases s.len(),
{
    if s.len() == 0 {
    } else if spec_is_space(s.last()) {
        let rest = s.drop_last();
        lemma_trailing_spaces_bounds(rest);
        let p = spec_trailing_spaces(s);
        assert forall|j: int| s.len() - p <= j < s.len() implies spec_is_space(
            #[trigger] s[j],
        ) by {
            if j < s.len() - 1 {
                assert(rest[j] == s[j]);
            }
        }
        if p < s.len() {
            assert(rest[rest.len() - (p - 1) - 1] == s[s.len() - p - 1]);
        }
    } else {
    }
}

/// A string trims to nothing exactly when it is blank — the emptiness test
/// on a trimmed name and the blankness test on the name itself agree.
pub proof fn lemma_blank_iff_trim_empty(s: Seq<char>)
    ensures
        spec_blank(s) <==> spec_trim(s).len() == 0,
{
    lemma_leading_spaces_bounds(s);
    let lead = spec_leading_spaces(s);
    let t = s.skip(lead);
    lemma_trailing_spaces_bounds(t);
    if spec_blank(s) {
        lemma_leading_spaces_of(s, s.len() as int);
        assert(t.len() == 0);
    } else {
        let i = choose|i: int| 0 <= i < s.len() && !spec_is_space(s[i]);
        assert(lead <= i);
        assert(lead < s.len());
        assert(t[0] == s[lead]);
        assert(!spec_is_space(t[0]));
        if spec_trailing_spaces(t) == t.len() {
            assert(spec_is_space(t[0]));
        }
        assert(spec_trim(s).len() == t.len() - spec_trailing_spaces(t) > 0);
    }
}

/// Trims ASCII whitespace off both ends.
pub fn trim_str<'a>(s: &'a str) -> (r: &'a str)
    ensures
        r@ == spec_trim(s@),
{
    let chars = collect_chars(s);
    let n = chars.len();
    let mut start: usize = 0;
    while start < n && (chars[start] == ' ' || chars[start] == '\t' || chars[start] == '\n'
        || chars[start] == '\r')
        invariant
            0 <= start <= n,
            n == s@.len(),
            chars@ == s@,
            forall|j: int| 0 <= j < start ==> spec_is_space(#[trigger] s@[j]),
        decreases n - start,
    {
        start = start + 1;
    }
    proof {
        lemma_leading_spaces_of(s@, start as int);
    }
    let mut end: usize = n;
    while end > start && (chars[end - 1] == ' ' || chars[end - 1] == '\t' || chars[end - 1]
        == '\n' || chars[end - 1] == '\r')
        invariant
            start <= end <= n,
            n == s@.len(),
            chars@ == s@,
            forall|j: int| end <= j < n ==> spec_is_space(#[trigger] s@[j]),
        decreases end,
    {
        end = end - 1;
    }
    let r = s.substring_char(start, end);
    proof {
        let t = s@.skip(start as int);
        assert forall|i: int| t.len() - (n - end) <= i < t.len() implies spec_is_space(
            #[trigger] t[i],
        ) by {
            assert(t[i] == s@[i + start]);
        }
        if end > start {
            assert(t[t.len() - (n - end) as int - 1] == s@[end - 1]);
        }
        lemma_trailing_spaces_of(t, n as int - end as int);
        assert(r@ =~= spec_trim(s@));
    }
    r
}

/// ASCII lower-casing of one character; everything outside `A`..`Z` keeps
/// its identity.
pub open spec fn spec_lower_char(c: char) -> char {
    if 'A' <= c && c <= 'Z' {
        ((c as u8) + 32) as char
    } else {
        c
    }
}

/// Case-insensitive equality in the ASCII range, character by character.
pub open spec fn spec_eq_ignore_case(a: Seq<char>, b: Seq<char>) -> bool {
    a.len() == b.len() && forall|i: int|
        0 <= i < a.len() ==> spec_lower_char(#[trigger] a[i]) == spec_lower_char(b[i])
}

fn lower_char(c: char) -> (r: char)
    ensures
        r == spec_lower_char(c),
{
    if c >= 'A' && c <= 'Z' {
        ((c as u8) + 32) as char
    } else {
        c
    }
}

/// Whether two strings agree up to ASCII case.
pub fn eq_ignore_ascii_case_str(a: &str, b: &str) -> (r: bool)
    ensures
        r == spec_eq_ignore_case(a@, b@),
{
    let ca = collect_chars(a);
    let cb = collect_chars(b);
    let n = ca.len();
    if n != cb.len() {
        return false;
    }
    let mut i: usize = 0;
    while i < n
        invariant
            0 <= i <= n,
            n == a@.len(),
            n == b@.len(),
            ca@ == a@,
            cb@ == b@,
            forall|j: int| 0 <= j < i ==> spec_lower_char(#[trigger] a@[j]) == spec_lower_char(b@[j]),
        decreases n - i,
    {
        if lower_char(ca[i]) != lower_char(cb[i]) {
            return false;
        }
        i = i + 1;
    }
    true
}

/// Whether `name` already occurs in `existing`, compared case-insensitively
/// — how duplicate entity names are detected.
pub fn name_taken(existing: &Vec<String>, name: &str) -> (r: bool)
    ensures
        r == exists|i: int|
            0 <= i < existing@.len() && spec_eq_ignore_case(#[trigger] existing@[i]@, name@),
{
    let n = existing.len();
    let mut i: usize = 0;
    while i < n
        invariant
            0 <= i <= n,
            n == existing@.len(),
            forall|j: int| 0 <= j < i ==> !spec_eq_ignore_case(#[trigger] existing@[j]@, name@),
        decreases n - i,
    {
        if eq_ignore_ascii_case_str(existing[i].as_str(), name) {
            return true;
        }
        i = i + 1;
    }
    false
}

/// Whether `sub` occurs contiguously inside `s`.
pub open spec fn spec_contains_sub(s: Seq<char>, sub: Seq<char>) -> bool {
    exists|k: int| 0 <= k && k + sub.len() <= s.len() && #[trigger] s.subrange(k, k + sub.len())
        == sub
}

fn contains_sub(hay: &Vec<char>, needle: &Vec<char>) -> (r: bool)
    ensures
        r == spec_contains_sub(hay@, needle@),
{
    let n = hay.len();
    let m = needle.len();
    if m > n {
        return false;
    }
    if m == 0 {
        proof {
            assert(hay@.subrange(0, 0 + needle@.len() as int) =~= needle@);
            assert(spec_contains_sub(hay@, needle@));
        }
        return true;
    }
    let mut k: usize = 0;
    while n - k >= m
        invariant
            0 <= k <= n,
            0 < m <= n,
            n == hay@.len(),
            m == needle@.len(),
            forall|k2: int|
                0 <= k2 < k ==> #[trigger] hay@.subrange(k2, k2 + needle@.len()) != needle@,
        decreases n - k,
    {
        let mut j: usize = 0;
        let mut matched = true;
        while j < m
            invariant
                0 <= j <= m,
                k + m <= n,
                n == hay@.len(),
                m == needle@.len(),
                matched ==> forall|j2: int| 0 <= j2 < j ==> hay@[k + j2] == needle@[j2],
                !matched ==> hay@.subrange(k as int, k + needle@.len()) != needle@,
            decreases m - j,
        {
            if hay[k + j] != needle[j] {
                proof {
                    assert(hay@.subrange(k as int, k + needle@.len())[j as int] == hay@[k + j]);
                }
                matched = false;
                j = m;
            } else {
                j = j + 1;
            }
        }
        if matched {
            proof {
                assert(hay@.subrange(k as int, k + needle@.len()) =~= needle@);
            }
            return true;
        }
        k = k + 1;
    }
    false
}

/// Classifies a database driver's message the way the storage layer does:
/// a duplicate-key or unique-constraint complaint is a conflict, everything
/// else a plain database failure.  The message is carried along unchanged.
pub fn classify_db_message(msg: String) -> (r: RepositoryError)
    ensures
        (spec_contains_sub(msg@, "duplicate key"@) || spec_contains_sub(
            msg@,
            "unique constraint"@,
        )) ==> r == RepositoryError::Conflict(msg),
        !(spec_contains_sub(msg@, "duplicate key"@) || spec_contains_sub(
            msg@,
            "unique constraint"@,
        )) ==> r == RepositoryError::Database(msg),
{
    let hay = collect_chars(msg.as_str());
    let pat1 = collect_chars("duplicate key");
    let pat2 = collect_chars("unique constraint");
    if contains_sub(&hay, &pat1) || contains_sub(&hay, &pat2) {
        RepositoryError::Conflict(msg)
    } else {
        RepositoryError::Database(msg)
    }
}

/// A ground station as the core reads it: coordinates in fixed-point
/// micro-degrees, altitude in meters.  The CRUD layer owns these records;
/// the unverified edge converts its floating-point degree values at the
/// boundary.
#[derive(Debug, PartialEq, Eq)]
pub struct GroundStation {
    pub id: i64,
    pub name: String,
    pub latitude_microdeg: i64,
    pub longitude_microdeg: i64,
    pub altitude_m: i64,
}

impl GroundStation {
    /// Latitude lies between -90 and 90 degrees.
    pub open spec fn latitude_ok(self) -> bool {
        -90_000_000 <= self.latitude_microdeg <= 90_000_000
    }

    /// Longitude lies between -180 and 180 degrees.
    pub open spec fn longitude_ok(self) -> bool {
        -180_000_000 <= self.longitude_microdeg <= 180_000_000
    }

    /// Altitude lies between -500 and 10000 meters.
    pub open spec fn altitude_ok(self) -> bool {
        -500 <= self.altitude_m <= 10000
    }
}

/// A satellite as the core reads it: frequencies in hertz.
#[derive(Debug, PartialEq, Eq)]
pub struct Satellite {
    pub id: i64,
    pub name: String,
    /// Two-line element set, an opaque orbit description.
    pub tle: String,
    pub downlink_frequency_hz: u64,
    pub uplink_frequency_hz: u64,
}

/// Validates a ground station about to be created, in the order the rules
/// are checked: blank name, latitude, longitude, altitude, then a
/// case-insensitive duplicate of the trimmed name among `existing_names`.
/// `Ok` exactly when every rule passes.
pub fn check_new_ground_station(gs: &GroundStation, existing_names: &Vec<String>) -> (r: Result<
    (),
    ServiceError,
>)
    ensures
        spec_blank(gs.name@) ==> (r matches Err(e) && (e matches ServiceError::BadRequest(m) && m@
            == "Name cannot be empty"@)),
        !spec_blank(gs.name@) && !gs.latitude_ok() ==> (r matches Err(e) && (
        e matches ServiceError::BadRequest(m) && m@ == "Latitude must be between -90 and 90"@)),
        !spec_blank(gs.name@) && gs.latitude_ok() && !gs.longitude_ok() ==> (r matches Err(e) && (
        e matches ServiceError::BadRequest(m) && m@ == "Longitude must be between -180 and 180"@)),
        !spec_blank(gs.name@) && gs.latitude_ok() && gs.longitude_ok() && !gs.altitude_ok() ==> (
        r matches Err(e) && (e matches ServiceError::BadRequest(m) && m@
            == "Altitude must be between -500 and 10000 meters"@)),
        !spec_blank(gs.name@) && gs.latitude_ok() && gs.longitude_ok() && gs.altitude_ok() && (
        exists|i: int|
            0 <= i < existing_names@.len() && spec_eq_ignore_case(
                #[trigger] existing_names@[i]@,
                spec_trim(gs.name@),
            )) ==> (r matches Err(e) && (e matches ServiceError::Conflict(m) && m@
            == "Ground station with name '"@ + spec_trim(gs.name@) + "' already exists"@)),
        !spec_blank(gs.name@) && gs.latitude_ok() && gs.longitude_ok() && gs.altitude_ok() && !(
        exists|i: int|
            0 <= i < existing_names@.len() && spec_eq_ignore_case(
                #[trigger] existing_names@[i]@,
                spec_trim(gs.name@),
            )) ==> r is Ok,
{
    if is_blank(gs.name.as_str()) {
        return Err(ServiceError::BadRequest(String::from_str("Name cannot be empty")));
    }
    if !(gs.latitude_microdeg >= -90_000_000 && gs.latitude_microdeg <= 90_000_000) {
        return Err(ServiceError::BadRequest(String::from_str(
            "Latitude must be between -90 and 90",
        )));
    }
    if !(gs.longitude_microdeg >= -180_000_000 && gs.longitude_microdeg <= 180_000_000) {
        return Err(ServiceError::BadRequest(String::from_str(
            "Longitude must be between -180 and 180",
        )));
    }
    if !(gs.altitude_m >= -500 && gs.altitude_m <= 10000) {
        return Err(ServiceError::BadRequest(String::from_str(
            "Altitude must be between -500 and 10000 meters",
        )));
    }
    let trimmed = trim_str(gs.name.as_str());
    if name_taken(existing_names, trimmed) {
        let mut m = String::from_str("Ground station with name '");
        m.append(trimmed);
        m.append("' already exists");
        return Err(ServiceError::Conflict(m));
    }
    Ok(())
}

/// Validates a satellite about to be created, in the order the rules are
/// checked: a case-insensitive duplicate name among `existing_names`, a
/// blank TLE, then non-positive frequencies.  `Ok` exactly when every rule
/// passes.
pub fn check_new_satellite(sat: &Satellite, existing_names: &Vec<String>) -> (r: Result<
    (),
    ServiceError,
>)
    ensures
        (exists|i: int|
            0 <= i < existing_names@.len() && spec_eq_ignore_case(
                #[trigger] existing_names@[i]@,
                sat.name@,
            )) ==> (r matches Err(e) && (e matches ServiceError::Conflict(m) && m@
            == "Satellite with name '"@ + sat.name@ + "' already exists"@)),
        !(exists|i: int|
            0 <= i < existing_names@.len() && spec_eq_ignore_case(
                #[trigger] existing_names@[i]@,
                sat.name@,
            )) && spec_blank(sat.tle@) ==> (r matches Err(e) && (
        e matches ServiceError::BadRequest(m) && m@ == "TLE cannot be empty"@)),
        !(exists|i: int|
            0 <= i < existing_names@.len() && spec_eq_ignore_case(
                #[trigger] existing_names@[i]@,
                sat.name@,
            )) && !spec_blank(sat.tle@) && (sat.downlink_frequency_hz == 0
            || sat.uplink_frequency_hz == 0) ==> (r matches Err(e) && (
        e matches ServiceError::BadRequest(m) && m@ == "Frequencies must be positive numbers"@)),
        !(exists|i: int|
            0 <= i < existing_names@.len() && spec_eq_ignore_case(
                #[trigger] existing_names@[i]@,
                sat.name@,
            )) && !spec_blank(sat.tle@) && sat.downlink_frequency_hz > 0
            && sat.uplink_frequency_hz > 0 ==> r is Ok,
{
    if name_taken(existing_names, sat.name.as_str()) {
        let mut m = String::from_str("Satellite with name '");
        m.append(sat.name.as_str());
        m.append("' already exists");
        return Err(ServiceError::Conflict(m));
    }
    if is_blank(sat.tle.as_str()) {
        return Err(ServiceError::BadRequest(String::from_str("TLE cannot be empty")));
    }
    if sat.downlink_frequency_hz == 0 || sat.uplink_frequency_hz == 0 {
        return Err(ServiceError::BadRequest(String::from_str(
            "Frequencies must be positive numbers",
        )));
    }
    Ok(())
}

/// What a TLE update request should do.
#[derive(Debug, PartialEq, Eq)]
pub enum TleUpdateDecision {
    /// Refuse the request with this error.
    Reject(ServiceError),
    /// The satellite already carries this TLE; answer it unchanged.
    KeepCurrent,
    /// Write the new TLE.
    Apply,
}

fn str_eq(a: &str, b: &str) -> (r: bool)
    ensures
        r == (a@ == b@),
{
    let ca = collect_chars(a);
    let cb = collect_chars(b);
    let n = ca.len();
    if n != cb.len() {
        proof {
            assert(a@.len() != b@.len());
        }
        return false;
    }
    let mut i: usize = 0;
    while i < n
        invariant
            0 <= i <= n,
            n == a@.len(),
            n == b@.len(),
            ca@ == a@,
            cb@ == b@,
            forall|j: int| 0 <= j < i ==> a@[j] == b@[j],
        decreases n - i,
    {
        if ca[i] != cb[i] {
            return false;
        }
        i = i + 1;
    }
    proof {
        assert(a@ =~= b@);
    }
    true
}

/// Decides a TLE update for satellite `sat_id`: a blank TLE is refused, a
/// missing satellite is not found, an identical TLE is kept as it is, and
/// otherwise the update is applied.
pub fn decide_tle_update(sat_id: i64, current: Option<&Satellite>, tle: &str) -> (d:
    TleUpdateDecision)
    ensures
        spec_blank(tle@) ==> (d matches TleUpdateDecision::Reject(e) && (
        e matches ServiceError::BadRequest(m) && m@ == "TLE cannot be empty"@)),
        !spec_blank(tle@) && current is None ==> (d matches TleUpdateDecision::Reject(e) && (
        e matches ServiceError::NotFound(m) && m@ == "Satellite with ID "@ + spec_i64_digits(
            sat_id,
        ) + " not found"@)),
        !spec_blank(tle@) && (current matches Some(s) && s.tle@ == tle@) ==> d
            == TleUpdateDecision::KeepCurrent,
        !spec_blank(tle@) && (current matches Some(s) && s.tle@ != tle@) ==> d
            == TleUpdateDecision::Apply,
{
    if is_blank(tle) {
        return TleUpdateDecision::Reject(ServiceError::BadRequest(String::from_str(
            "TLE cannot be empty",
        )));
    }
    match current {
        Option::None => {
            let mut m = String::from_str("Satellite with ID ");
            let digits = i64_to_string(sat_id);
            m.append(digits.as_str());
            m.append(" not found");
            TleUpdateDecision::Reject(ServiceError::NotFound(m))
        },
        Option::Some(sat) => {
            if str_eq(sat.tle.as_str(), tle) {
                TleUpdateDecision::KeepCurrent
            } else {
                TleUpdateDecision::Apply
            }
        },
    }
}

/// Turns a deletion's row count into the service answer for a ground
/// station: deleted, or not found with the id named.
pub fn ground_station_delete_outcome(id: i64, deleted: bool) -> (r: Result<bool, ServiceError>)
    ensures
        deleted ==> r == Ok::<bool, ServiceError>(true),
        !deleted ==> (r matches Err(e) && (e matches ServiceError::NotFound(m) && m@
            == "Ground station "@ + spec_i64_digits(id) + " not found"@)),
{
    if deleted {
        Ok(true)
    } else {
        let mut m = String::from_str("Ground station ");
        let digits = i64_to_string(id);
        m.append(digits.as_str());
        m.append(" not found");
        Err(ServiceError::NotFound(m))
    }
}

/// Turns a deletion's row count into the service answer for a satellite.
pub fn satellite_delete_outcome(id: i64, deleted: bool) -> (r: Result<bool, ServiceError>)
    ensures
        deleted ==> r == Ok::<bool, ServiceError>(true),
        !deleted ==> (r matches Err(e) && (e matches ServiceError::NotFound(m) && m@
            == "Satellite with ID "@ + spec_i64_digits(id) + " not found"@)),
{
    if deleted {
        Ok(true)
    } else {
        let mut m = String::from_str("Satellite with ID ");
        let digits = i64_to_string(id);
        m.append(digits.as_str());
        m.append(" not found");
        Err(ServiceError::NotFound(m))
    }
}

} // verus!
