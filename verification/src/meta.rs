//! The metadata snapshot: capturing a file's timestamps before a rewrite and
//! restoring them afterwards, each field independently of the others.

use vstd::prelude::*;

verus! {

/// A timestamp as whole seconds and a sub-second nanosecond part.
#[derive(Clone, Copy, PartialEq, Eq, Structural, Debug)]
pub struct TimeSpec {
    pub seconds: i64,
    pub nanos: u32,
}

/// The created/accessed/modified timestamps of a file, each independently
/// optional: a field the platform could not supply stays `None` and never
/// blocks the others.
#[derive(Clone, Copy)]
pub struct MetaApply {
    pub created_time: Option<TimeSpec>,
    pub last_accessed: Option<TimeSpec>,
    pub last_modified: Option<TimeSpec>,
}

impl MetaApply {
    /// An empty snapshot: no field captured yet.
    pub fn new() -> (m: MetaApply)
        ensures
            m.created_time is None,
            m.last_accessed is None,
            m.last_modified is None,
    {
        MetaApply { created_time: None, last_accessed: None, last_modified: None }
    }

    /// Records the created time; the other fields are untouched.
    pub fn add_created_time(&mut self, t: TimeSpec)
        ensures
            final(self).created_time == Some(t),
            final(self).last_accessed == old(self).last_accessed,
            final(self).last_modified == old(self).last_modified,
    {
        self.created_time = Some(t);
    }

    /// Records the last-accessed time; the other fields are untouched.
    pub fn add_last_accessed(&mut self, t: TimeSpec)
        ensures
            final(self).last_accessed == Some(t),
            final(self).created_time == old(self).created_time,
            final(self).last_modified == old(self).last_modified,
    {
        self.last_accessed = Some(t);
    }

    /// Records the last-modified time; the other fields are untouched.
    pub fn add_last_modified(&mut self, t: TimeSpec)
        ensures
            final(self).last_modified == Some(t),
            final(self).created_time == old(self).created_time,
            final(self).last_accessed == old(self).last_accessed,
    {
        self.last_modified = Some(t);
    }
}

/// The three timestamp fields a file shows, as restoration models them.
#[derive(Clone, Copy, PartialEq, Eq, Structural, Debug)]
pub struct FileTimes {
    pub created: TimeSpec,
    pub accessed: TimeSpec,
    pub modified: TimeSpec,
}

/// The timestamps a file shows after each present field of `snap` is
/// restored onto `current`, independently of the other fields.
pub open spec fn apply_spec(current: FileTimes, snap: MetaApply) -> FileTimes {
    FileTimes {
        created: match snap.created_time {
            Some(t) => t,
            None => current.created,
        },
        accessed: match snap.last_accessed {
            Some(t) => t,
            None => current.accessed,
        },
        modified: match snap.last_modified {
            Some(t) => t,
            None => current.modified,
        },
    }
}

/// Applies a snapshot onto a file's current timestamps: each present field
/// replaces the current value; an absent field leaves it alone.
pub fn apply_snapshot(current: FileTimes, snap: MetaApply) -> (r: FileTimes)
    ensures
        r == apply_spec(current, snap),
{
    FileTimes {
        created: match snap.created_time {
            Some(t) => t,
            None => current.created,
        },
        accessed: match snap.last_accessed {
            Some(t) => t,
            None => current.accessed,
        },
        modified: match snap.last_modified {
            Some(t) => t,
            None => current.modified,
        },
    }
}

/// After restoration, every field present in the snapshot equals the
/// corresponding field read back from the file, whatever the file showed
/// before and whichever other fields were present.
pub proof fn lemma_restore_round_trip(current: FileTimes, snap: MetaApply)
    ensures
        snap.created_time matches Some(t) ==> apply_spec(current, snap).created == t,
        snap.last_accessed matches Some(t) ==> apply_spec(current, snap).accessed == t,
        snap.last_modified matches Some(t) ==> apply_spec(current, snap).modified == t,
{
}

/// The day a timestamp falls on, written out as calendar text: a function
/// of the seconds and nanoseconds alone.
pub uninterp spec fn day_string_of(seconds: int, nanos: int) -> Seq<u8>;

/// The timestamp lies on the calendar: its seconds and nanoseconds are in
/// the range the calendar accepts.  A function of the two alone.
pub uninterp spec fn day_in_range(seconds: int, nanos: int) -> bool;

/// Relies on `chrono::DateTime::from_timestamp` and its year-month-day
/// formatting: the day the timestamp falls on.  The conversion is a pure
/// function of the pair and returns `None` exactly when it lies outside the
/// calendar's range; formatting a valid date cannot fail.
#[verifier::external_body]
fn day_label(seconds: i64, nanos: u32) -> (r: Option<Vec<u8>>)
    ensures
        r is Some <==> day_in_range(seconds as int, nanos as int),
        r matches Some(d) ==> d@ == day_string_of(seconds as int, nanos as int),
{
    match chrono::DateTime::from_timestamp(seconds, nanos) {
        Some(dt) => Some(dt.format("%Y-%m-%d").to_string().into_bytes()),
        None => None,
    }
}

/// The bytes of the label `created_time: `.
pub open spec fn created_label() -> Seq<u8> {
    seq![99u8, 114, 101, 97, 116, 101, 100, 95, 116, 105, 109, 101, 58, 32]
}

/// The bytes of the label `last_accessed: `.
pub open spec fn accessed_label() -> Seq<u8> {
    seq![108u8, 97, 115, 116, 95, 97, 99, 99, 101, 115, 115, 101, 100, 58, 32]
}

/// The bytes of the label `last_modified: `.
pub open spec fn modified_label() -> Seq<u8> {
    seq![108u8, 97, 115, 116, 95, 109, 111, 100, 105, 102, 105, 101, 100, 58, 32]
}

/// The bytes of `None`, shown for a field that was never captured.
pub open spec fn none_text() -> Seq<u8> {
    seq![78u8, 111, 110, 101]
}

/// What one field shows: the day it falls on, or `None`.
pub open spec fn field_text(f: Option<TimeSpec>) -> Seq<u8> {
    match f {
        Some(t) => day_string_of(t.seconds as int, t.nanos as int),
        None => none_text(),
    }
}

/// One field can be shown: it is absent, or its timestamp lies on the
/// calendar.
pub open spec fn field_renderable(f: Option<TimeSpec>) -> bool {
    match f {
        Some(t) => day_in_range(t.seconds as int, t.nanos as int),
        None => true,
    }
}

/// The three labelled lines a snapshot shows.
pub open spec fn describe_spec(m: MetaApply) -> Seq<u8> {
    created_label() + field_text(m.created_time) + seq![10u8] + accessed_label() + field_text(
        m.last_accessed,
    ) + seq![10u8] + modified_label() + field_text(m.last_modified) + seq![10u8]
}

impl MetaApply {
    /// Renders the snapshot as three labelled lines, one per field, absent
    /// fields shown as `None`.  It succeeds exactly when every present
    /// field's timestamp lies on the calendar.
    pub fn describe(&self) -> (r: Option<Vec<u8>>)
        ensures
            r is Some <==> field_renderable(self.created_time) && field_renderable(
                self.last_accessed,
            ) && field_renderable(self.last_modified),
            r matches Some(d) ==> d@ == describe_spec(*self),
    {
        let mut out: Vec<u8> = Vec::new();
        let mut label: Vec<u8> = Vec::new();
        label.push(99);
        label.push(114);
        label.push(101);
        label.push(97);
        label.push(116);
        label.push(101);
        label.push(100);
        label.push(95);
        label.push(116);
        label.push(105);
        label.push(109);
        label.push(101);
        label.push(58);
        label.push(32);
        proof {
            assert(label@ =~= created_label());
        }
        crate::bytes::append_bytes(&mut out, label.as_slice());
        if !push_field_text(&mut out, &self.created_time) {
            return None;
        }
        out.push(10);
        let mut label2: Vec<u8> = Vec::new();
        label2.push(108);
        label2.push(97);
        label2.push(115);
        label2.push(116);
        label2.push(95);
        label2.push(97);
        label2.push(99);
        label2.push(99);
        label2.push(101);
        label2.push(115);
        label2.push(115);
        label2.push(101);
        label2.push(100);
        label2.push(58);
        label2.push(32);
        proof {
            assert(label2@ =~= accessed_label());
        }
        crate::bytes::append_bytes(&mut out, label2.as_slice());
        if !push_field_text(&mut out, &self.last_accessed) {
            return None;
        }
        out.push(10);
        let mut label3: Vec<u8> = Vec::new();
        label3.push(108);
        label3.push(97);
        label3.push(115);
        label3.push(116);
        label3.push(95);
        label3.push(109);
        label3.push(111);
        label3.push(100);
        label3.push(105);
        label3.push(102);
        label3.push(105);
        label3.push(101);
        label3.push(100);
        label3.push(58);
        label3.push(32);
        proof {
            assert(label3@ =~= modified_label());
        }
        crate::bytes::append_bytes(&mut out, label3.as_slice());
        if !push_field_text(&mut out, &self.last_modified) {
            return None;
        }
        out.push(10);
        proof {
            assert(out@ =~= describe_spec(*self));
        }
        Some(out)
    }
}

/// Appends what one field shows; false exactly when a present timestamp
/// cannot be placed on the calendar.
fn push_field_text(out: &mut Vec<u8>, f: &Option<TimeSpec>) -> (r: bool)
    ensures
        r == field_renderable(*f),
        r ==> final(out)@ == old(out)@ + field_text(*f),
{
    match f {
        Some(t) => {
            match day_label(t.seconds, t.nanos) {
                Some(d) => {
                    crate::bytes::append_bytes(out, d.as_slice());
                    true
                },
                None => false,
            }
        },
        None => {
            let mut text: Vec<u8> = Vec::new();
            text.push(78);
            text.push(111);
            text.push(110);
            text.push(101);
            proof {
                assert(text@ =~= none_text());
            }
            crate::bytes::append_bytes(out, text.as_slice());
            true
        },
    }
}

/// The number of whole 100-nanosecond intervals that `t` holds.
pub open spec fn intervals_of(t: TimeSpec) -> int {
    t.seconds * 10_000_000 + t.nanos / 100
}

/// A file time split into the two 32-bit halves that a platform timestamp
/// record holds.
#[derive(Clone, Copy, PartialEq, Eq, Structural, Debug)]
pub struct FiletimeParts {
    pub low: u32,
    pub high: u32,
}

/// Splits a timestamp into the low and high halves of its 100-nanosecond
/// interval count, reduced modulo 2^64: a pre-epoch timestamp wraps into
/// the unsigned 64-bit record exactly as the signed count's bit pattern
/// does.  The bounds keep the interval count inside 64-bit arithmetic.
pub fn to_filetime(t: TimeSpec) -> (r: FiletimeParts)
    requires
        -922_337_203_685 <= t.seconds <= 922_337_203_684,
        t.nanos < 1_000_000_000,
    ensures
        r.low + r.high * 0x1_0000_0000 == intervals_of(t) % 0x1_0000_0000_0000_0000,
        0 <= intervals_of(t) ==> r.low == intervals_of(t) % 0x1_0000_0000 && r.high
            == intervals_of(t) / 0x1_0000_0000,
{
    let intervals: i64 = t.seconds * 10_000_000 + (t.nanos / 100) as i64;
    if intervals >= 0 {
        let low: u32 = (intervals % 0x1_0000_0000) as u32;
        let high: u32 = (intervals / 0x1_0000_0000) as u32;
        proof {
            vstd::arithmetic::div_mod::lemma_small_mod(
                intervals as nat,
                0x1_0000_0000_0000_0000,
            );
            vstd::arithmetic::div_mod::lemma_fundamental_div_mod(
                intervals as int,
                0x1_0000_0000,
            );
        }
        FiletimeParts { low, high }
    } else {
        let mag: i64 = -intervals;
        let mq: i64 = mag / 0x1_0000_0000;
        let mr: i64 = mag % 0x1_0000_0000;
        proof {
            vstd::arithmetic::div_mod::lemma_fundamental_div_mod(mag as int, 0x1_0000_0000);
            vstd::arithmetic::div_mod::lemma_mod_add_multiples_vanish(
                intervals as int,
                0x1_0000_0000_0000_0000,
            );
            vstd::arithmetic::div_mod::lemma_small_mod(
                (intervals + 0x1_0000_0000_0000_0000) as nat,
                0x1_0000_0000_0000_0000,
            );
        }
        if mr == 0 {
            let high: u32 = (0x1_0000_0000i64 - mq) as u32;
            FiletimeParts { low: 0, high }
        } else {
            let low: u32 = (0x1_0000_0000i64 - mr) as u32;
            let high: u32 = (0xFFFF_FFFFi64 - mq) as u32;
            FiletimeParts { low, high }
        }
    }
}

} // verus!
