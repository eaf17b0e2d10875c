//! Points in time, in UTC.
use vstd::prelude::*;

verus! {

/// The first second of the year -262143.
pub const MIN_SECONDS: i64 = -8_334_601_228_800;

/// The last second of the year 262142.
pub const MAX_SECONDS: i64 = 8_210_266_876_799;

/// A point in time: whole seconds since 1970, and the nanoseconds into the
/// second. A leap second is written as nanoseconds beyond the full second,
/// at the end of a minute only.
#[derive(Debug, Clone, Copy, PartialEq, Eq, Hash, Structural)]
pub struct Timestamp {
    seconds: i64,
    nanos: u32,
}

/// The pairs that denote a point in time.
pub open spec fn is_instant(seconds: i64, nanos: u32) -> bool {
    &&& MIN_SECONDS <= seconds <= MAX_SECONDS
    &&& nanos < 2_000_000_000
    &&& nanos >= 1_000_000_000 ==> (seconds as int) % 60 == 59
}

/// What `chrono` writes for a point in time in RFC 3339.
pub uninterp spec fn rfc3339_text(seconds: i64, nanos: u32) -> Seq<char>;

/// What `chrono` makes of a text in RFC 3339: the point in time that it
/// denotes, or the sentence that says why it denotes none.
pub uninterp spec fn rfc3339_read(raw: Seq<char>) -> core::result::Result<(i64, u32), Seq<char>>;

/// The point in time that a text denotes in RFC 3339, if any.
pub open spec fn rfc3339_instant(raw: Seq<char>) -> Option<(i64, u32)> {
    match rfc3339_read(raw) {
        Ok(parts) => Some(parts),
        Err(_) => None,
    }
}

/// What is said of a text that is not RFC 3339.
pub open spec fn rfc3339_complaint(raw: Seq<char>) -> Seq<char> {
    match rfc3339_read(raw) {
        Ok(_) => Seq::empty(),
        Err(sentence) => sentence,
    }
}

/// The calendar day of a point in time, as `chrono` writes `%Y-%m-%d`.
pub uninterp spec fn day_text(seconds: i64) -> Seq<char>;

/// The years that RFC 3339 has four digits for.
pub open spec fn four_digit_year(seconds: i64) -> bool {
    -62_167_219_200 <= seconds <= 253_402_300_799
}

/// `chrono::DateTime::parse_from_rfc3339`, as the instant it denotes in UTC.
#[verifier::external_body]
fn chrono_parse(raw: &str) -> (parsed: core::result::Result<(i64, u32), String>)
    ensures
        match parsed {
            Ok((seconds, nanos)) => is_instant(seconds, nanos) && (rfc3339_read(raw@) matches Ok(
                parts,
            ) && parts == (seconds, nanos)),
            Err(sentence) => rfc3339_read(raw@) matches Err(reason) && reason == sentence@,
        },
{
    match chrono::DateTime::parse_from_rfc3339(raw) {
        Ok(time) => Ok((time.timestamp(), time.timestamp_subsec_nanos())),
        Err(error) => Err(error.to_string()),
    }
}

/// `chrono::DateTime::to_rfc3339` in UTC. Within the years that RFC 3339 can
/// write, `chrono` reads the same instant back.
#[verifier::external_body]
fn chrono_render(seconds: i64, nanos: u32) -> (text: String)
    requires
        is_instant(seconds, nanos),
    ensures
        text@ == rfc3339_text(seconds, nanos),
        four_digit_year(seconds) && nanos < 1_000_000_000 ==> rfc3339_instant(text@) == Some(
            (seconds, nanos),
        ),
{
    chrono::DateTime::from_timestamp(seconds, nanos).unwrap().to_rfc3339()
}

/// `chrono::DateTime::format` with `%Y-%m-%d`, in UTC.
#[verifier::external_body]
fn chrono_day(seconds: i64, nanos: u32) -> (text: String)
    requires
        is_instant(seconds, nanos),
    ensures
        text@ == day_text(seconds),
{
    chrono::DateTime::from_timestamp(seconds, nanos).unwrap().format("%Y-%m-%d").to_string()
}

/// The whole seconds of a span of nanoseconds, a fraction dropped.
pub open spec fn whole_seconds(nanos: int) -> int {
    if nanos >= 0 {
        nanos / 1_000_000_000
    } else {
        -((-nanos) / 1_000_000_000)
    }
}

/// The leap second that lies between two points in time beyond what their
/// seconds count, going by the time of day: the one that the earlier time of
/// day stands in.
pub open spec fn leap_between(
    seconds: i64,
    nanos: u32,
    since_seconds: i64,
    since_nanos: u32,
) -> int {
    let (day, since_day) = (seconds as int % 86_400, since_seconds as int % 86_400);
    if day > since_day && since_nanos >= 1_000_000_000 {
        1
    } else if day < since_day && nanos >= 1_000_000_000 {
        -1
    } else {
        0
    }
}

/// The whole seconds from one point in time to another.
pub open spec fn elapsed_seconds(
    seconds: i64,
    nanos: u32,
    since_seconds: i64,
    since_nanos: u32,
) -> int {
    let leap = leap_between(seconds, nanos, since_seconds, since_nanos);
    whole_seconds((seconds - since_seconds + leap) * 1_000_000_000 + (nanos - since_nanos))
}

/// `chrono::DateTime::signed_duration_since` and `TimeDelta::num_seconds`: the
/// whole seconds of the difference between two instants, a leap second counted
/// where the earlier time of day stands in one.
#[verifier::external_body]
fn chrono_elapsed(seconds: i64, nanos: u32, since_seconds: i64, since_nanos: u32) -> (elapsed: i64)
    requires
        is_instant(seconds, nanos),
        is_instant(since_seconds, since_nanos),
    ensures
        elapsed == elapsed_seconds(seconds, nanos, since_seconds, since_nanos),
{
    let since = chrono::DateTime::from_timestamp(since_seconds, since_nanos).unwrap();
    let until = chrono::DateTime::from_timestamp(seconds, nanos).unwrap();
    until.signed_duration_since(since).num_seconds()
}

impl Timestamp {
    #[verifier::type_invariant]
    closed spec fn well_formed(self) -> bool {
        is_instant(self.seconds, self.nanos)
    }

    pub closed spec fn spec_seconds(self) -> i64 {
        self.seconds
    }

    pub closed spec fn spec_nanos(self) -> u32 {
        self.nanos
    }

    /// The two numbers that make up the point in time.
    pub open spec fn parts(self) -> (i64, u32) {
        (self.spec_seconds(), self.spec_nanos())
    }

    /// The point in time with these parts.
    pub closed spec fn of_parts(parts: (i64, u32)) -> Timestamp {
        Timestamp { seconds: parts.0, nanos: parts.1 }
    }

    pub open spec fn before(self, other: Timestamp) -> bool {
        ||| self.spec_seconds() < other.spec_seconds()
        ||| self.spec_seconds() == other.spec_seconds() && self.spec_nanos() < other.spec_nanos()
    }

    pub open spec fn text(self) -> Seq<char> {
        rfc3339_text(self.spec_seconds(), self.spec_nanos())
    }

    pub open spec fn day(self) -> Seq<char> {
        day_text(self.spec_seconds())
    }

    /// Whether RFC 3339 text carries this point in time without loss.
    pub open spec fn writable(self) -> bool {
        four_digit_year(self.spec_seconds()) && self.spec_nanos() < 1_000_000_000
    }

    /// The whole seconds since an earlier point in time; none, if it is later.
    pub open spec fn age_since(self, since: Timestamp) -> nat {
        let elapsed = elapsed_seconds(
            self.spec_seconds(),
            self.spec_nanos(),
            since.spec_seconds(),
            since.spec_nanos(),
        );
        if elapsed < 0 {
            0
        } else {
            elapsed as nat
        }
    }

    /// A number that is the smaller the later the point in time.
    pub open spec fn newest_key(self) -> u128 {
        ((MAX_SECONDS - self.spec_seconds()) * 4_294_967_296 + (4_294_967_295
            - self.spec_nanos())) as u128
    }

    /// The point in time with these parts, if there is one.
    pub fn new(seconds: i64, nanos: u32) -> (time: Option<Timestamp>)
        ensures
            time is Some <==> is_instant(seconds, nanos),
            time matches Some(t) ==> t.parts() == (seconds, nanos),
    {
        if MIN_SECONDS <= seconds && seconds <= MAX_SECONDS && nanos < 2_000_000_000 && (nanos
            < 1_000_000_000 || minute_end(seconds)) {
            Some(Timestamp { seconds, nanos })
        } else {
            None
        }
    }

    pub fn seconds(&self) -> (seconds: i64)
        ensures
            seconds == self.spec_seconds(),
    {
        self.seconds
    }

    pub fn nanos(&self) -> (nanos: u32)
        ensures
            nanos == self.spec_nanos(),
    {
        self.nanos
    }

    /// Whether this point in time comes before `other`.
    pub fn is_before(&self, other: &Timestamp) -> (earlier: bool)
        ensures
            earlier == self.before(*other),
    {
        self.seconds < other.seconds || (self.seconds == other.seconds && self.nanos < other.nanos)
    }

    /// A number that is the smaller the later the point in time.
    pub fn newest_first(&self) -> (key: u128)
        ensures
            key == self.newest_key(),
    {
        proof {
            use_type_invariant(self);
        }
        let seconds: u64 = (MAX_SECONDS - self.seconds) as u64;
        (seconds as u128) * 4_294_967_296 + (4_294_967_295 - self.nanos) as u128
    }

    /// The whole seconds since an earlier point in time; none, if it is later.
    pub fn seconds_since(&self, since: &Timestamp) -> (age: u64)
        ensures
            age == self.age_since(*since),
            self.spec_nanos() < 1_000_000_000 && since.spec_nanos() < 1_000_000_000
                && !self.before(*since) ==> age == ((self.spec_seconds() - since.spec_seconds())
                * 1_000_000_000 + (self.spec_nanos() - since.spec_nanos())) / 1_000_000_000,
            self.spec_nanos() < 1_000_000_000 && since.spec_nanos() < 1_000_000_000 && self.before(
                *since,
            ) ==> age == 0,
    {
        proof {
            use_type_invariant(self);
            use_type_invariant(since);
        }
        let elapsed: i64 = chrono_elapsed(self.seconds, self.nanos, since.seconds, since.nanos);
        if elapsed < 0 {
            0
        } else {
            elapsed as u64
        }
    }

    /// Reads RFC 3339.
    pub fn parse(raw: &str) -> (time: core::result::Result<Timestamp, String>)
        ensures
            match time {
                Ok(t) => rfc3339_instant(raw@) == Some(t.parts()) && t == Timestamp::of_parts(
                    rfc3339_instant(raw@)->0,
                ),
                Err(sentence) => rfc3339_instant(raw@) is None && sentence@ == rfc3339_complaint(
                    raw@,
                ),
            },
    {
        match chrono_parse(raw) {
            Ok((seconds, nanos)) => Ok(Timestamp { seconds, nanos }),
            Err(sentence) => Err(sentence),
        }
    }

    /// Writes RFC 3339, which [`Timestamp::parse`] reads back where the year
    /// has four digits.
    pub fn to_text(&self) -> (text: String)
        ensures
            text@ == self.text(),
            self.writable() ==> rfc3339_instant(text@) == Some(self.parts()),
    {
        proof {
            use_type_invariant(self);
        }
        chrono_render(self.seconds, self.nanos)
    }

    /// The calendar day, as `2026-06-02`.
    pub fn day_label(&self) -> (text: String)
        ensures
            text@ == self.day(),
    {
        proof {
            use_type_invariant(self);
        }
        chrono_day(self.seconds, self.nanos)
    }
}

/// Whether a count of seconds stands at the last second of its minute.
fn minute_end(seconds: i64) -> (last: bool)
    requires
        MIN_SECONDS <= seconds <= MAX_SECONDS,
    ensures
        last == ((seconds as int) % 60 == 59),
{
    let shifted: u64 = (seconds + 8_334_601_228_800) as u64;
    proof {
        assert((seconds + 8_334_601_228_800) % 60 == (seconds as int) % 60) by {
            assert(8_334_601_228_800int == 60 * 138_910_020_480);
        }
    }
    shifted % 60 == 59
}

/// Two points in time with the same parts are the same.
pub proof fn instants_are_their_parts(a: Timestamp, b: Timestamp)
    ensures
        a.parts() == b.parts() <==> a == b,
        Timestamp::of_parts(a.parts()) == a,
{
}

/// The key orders points in time latest first.
pub proof fn newest_keys_order(a: Timestamp, b: Timestamp)
    requires
        is_instant(a.spec_seconds(), a.spec_nanos()),
        is_instant(b.spec_seconds(), b.spec_nanos()),
    ensures
        a.newest_key() < b.newest_key() <==> b.before(a),
        a.newest_key() == b.newest_key() <==> a == b,
{
}

/// Time is a total order.
pub proof fn time_is_total(a: Timestamp, b: Timestamp)
    ensures
        a.before(b) || b.before(a) || a == b,
        a.before(b) ==> !b.before(a),
{
}

/// A point in time lies before another if its second does, or if it lies
/// earlier in the same second.
pub proof fn time_goes_by_seconds_and_their_parts(a: Timestamp, b: Timestamp)
    ensures
        a.spec_seconds() < b.spec_seconds() ==> a.before(b) && !b.before(a),
        a.spec_seconds() == b.spec_seconds() ==> (a.before(b) <==> a.spec_nanos() < b.spec_nanos()),
{
}

/// Leap seconds aside, an age is how many whole seconds have passed, and nothing
/// where the time has not come.
pub proof fn ages_are_whole_seconds(now: Timestamp, since: Timestamp)
    requires
        now.spec_nanos() < 1_000_000_000,
        since.spec_nanos() < 1_000_000_000,
    ensures
        ({
            let passed = (now.spec_seconds() - since.spec_seconds()) * 1_000_000_000 + (
            now.spec_nanos() - since.spec_nanos());
            &&& passed >= 0 ==> now.age_since(since) == passed / 1_000_000_000
            &&& passed < 0 ==> now.age_since(since) == 0
        }),
        now.age_since(now) == 0,
{
}

} // verus!
