use std::fmt::Write;

use chrono::TimeZone;
use vstd::prelude::*;
use vstd::string::*;
use vstd::utf8::encode_utf8;

use crate::value::{
    fields_view, find_key, has_key, keys_unique, lemma_fields_view, lemma_key_index, lemma_put,
    lookup, put, put_field, Timestamp, Value, ValueModel,
};

verus! {

/// The instant that chrono reads from `text` (taken as UTF-8, invalid sequences
/// replaced) with the strftime-style `format`, in UTC, if it reads one.
pub uninterp spec fn parsed_date(text: Seq<u8>, format: Seq<char>) -> Option<Timestamp>;

/// The text that chrono writes for the UTC instant `t` with the strftime-style
/// `format`, if it can write it.
pub uninterp spec fn formatted_date(t: Timestamp, format: Seq<char>) -> Option<Seq<char>>;

/// chrono accepts `format` as a strftime-style format description.
pub uninterp spec fn valid_date_format(format: Seq<char>) -> bool;

/// Relies on chrono's `TimeZone::datetime_from_str` for `Utc`: the instant that
/// the text denotes under the format, or none; the result depends on the two
/// arguments alone.
#[verifier::external_body]
#[allow(deprecated)]
fn parse_date(text: &Vec<u8>, format: &str) -> (r: Option<Timestamp>)
    ensures
        r == parsed_date(text@, format@),
{
    let text = String::from_utf8_lossy(text);
    chrono::Utc.datetime_from_str(&text, format).ok().map(|d| Timestamp {
        secs: d.timestamp(),
        nanos: d.timestamp_subsec_nanos(),
    })
}

/// Relies on chrono's `DateTime::<Utc>::format`: writing the instant with the
/// format either gives a text that depends on the two arguments alone, or fails
/// (an instant out of chrono's range, or an item the format cannot write).
#[verifier::external_body]
fn format_date(t: Timestamp, format: &str) -> (r: Option<String>)
    ensures
        match r {
            Some(s) => formatted_date(t, format@) == Some(s@),
            None => formatted_date(t, format@) is None,
        },
{
    let d = chrono::DateTime::from_timestamp(t.secs, t.nanos)?;
    let mut out = String::new();
    match write!(out, "{}", d.format(format)) {
        Ok(()) => Some(out),
        Err(_) => None,
    }
}

/// Relies on chrono's `StrftimeItems::parse`: whether every item of the format
/// description is one that chrono knows.
#[verifier::external_body]
fn check_date_format(format: &str) -> (r: bool)
    ensures
        r == valid_date_format(format@),
{
    chrono::format::StrftimeItems::new(format).parse().is_ok()
}

/// The ASCII digits of a natural number in base ten, without leading zeros.
pub open spec fn digits_of(n: nat) -> Seq<u8>
    decreases n,
{
    if n < 10 {
        seq![(48 + n) as u8]
    } else {
        digits_of(n / 10).push((48 + n % 10) as u8)
    }
}

/// The decimal form of an integer: a minus sign for negatives, then its digits.
pub open spec fn decimal_bytes(n: int) -> Seq<u8> {
    if n < 0 {
        seq![45u8] + digits_of((-n) as nat)
    } else {
        digits_of(n as nat)
    }
}

/// The value of a sequence of ASCII decimal digits.
pub open spec fn digits_value(s: Seq<char>) -> int
    decreases s.len(),
{
    if s.len() == 0 {
        0
    } else {
        digits_value(s.drop_last()) * 10 + (s.last() as int - 48)
    }
}

pub open spec fn is_digit(c: char) -> bool {
    '0' <= c && c <= '9'
}

pub open spec fn all_digits(s: Seq<char>) -> bool {
    forall|i: int| 0 <= i < s.len() ==> is_digit(#[trigger] s[i])
}

/// A signed 64-bit integer written in base ten: an optional `+` or `-`, then at
/// least one digit; `None` for any other text or a value out of range.
pub open spec fn parse_i64_spec(s: Seq<char>) -> Option<i64> {
    let negative = s.len() > 0 && s[0] == '-';
    let body = if s.len() > 0 && (s[0] == '-' || s[0] == '+') {
        s.skip(1)
    } else {
        s
    };
    let v = if negative {
        -digits_value(body)
    } else {
        digits_value(body)
    };
    if body.len() > 0 && all_digits(body) && i64::MIN <= v <= i64::MAX {
        Some(v as i64)
    } else {
        None
    }
}

/// An unsigned 64-bit integer written in base ten: an optional `+`, then at least
/// one digit; `None` for any other text or a value out of range.
pub open spec fn parse_u64_spec(s: Seq<char>) -> Option<u64> {
    let body = if s.len() > 0 && s[0] == '+' {
        s.skip(1)
    } else {
        s
    };
    if body.len() > 0 && all_digits(body) && digits_value(body) <= u64::MAX {
        Some(digits_value(body) as u64)
    } else {
        None
    }
}

fn digits_into(n: u64, out: &mut Vec<u8>)
    ensures
        final(out)@ == old(out)@ + digits_of(n as nat),
    decreases n,
{
    if n >= 10 {
        digits_into(n / 10, out);
    }
    out.push((48 + n % 10) as u8);
    proof {
        if n >= 10 {
            assert(old(out)@ + digits_of(n as nat) =~= old(out)@ + digits_of((n / 10) as nat) + seq![(48 + n % 10) as u8]);
        } else {
            assert(old(out)@ + digits_of(n as nat) =~= old(out)@.push((48 + n % 10) as u8));
        }
    }
}

/// The decimal form of an integer, as bytes.
pub fn decimal_of(n: i64) -> (r: Vec<u8>)
    ensures
        r@ == decimal_bytes(n as int),
{
    let mut out: Vec<u8> = Vec::new();
    if n < 0 {
        out.push(45u8);
        let m: u64 = if n == i64::MIN {
            9223372036854775808u64
        } else {
            (-n) as u64
        };
        digits_into(m, &mut out);
        assert(out@ =~= seq![45u8] + digits_of((-n) as nat));
    } else {
        digits_into(n as u64, &mut out);
        assert(out@ =~= digits_of(n as nat));
    }
    out
}

proof fn lemma_digits_value_prefix_bound(s: Seq<char>, k: int)
    requires
        all_digits(s),
        0 <= k <= s.len(),
    ensures
        0 <= digits_value(s.subrange(0, k)) <= digits_value(s),
    decreases s.len(),
{
    if k == s.len() {
        assert(s.subrange(0, k) =~= s);
        if s.len() > 0 {
            lemma_digits_value_prefix_bound(s.drop_last(), 0);
        }
    } else {
        let f = s.drop_last();
        assert(all_digits(f));
        lemma_digits_value_prefix_bound(f, k);
        assert(f.subrange(0, k) =~= s.subrange(0, k));
        assert(is_digit(s[s.len() - 1]));
    }
}

/// The value of the digits of `s` from `start` on, if they are all digits, there
/// is at least one, and the value does not pass `limit`.
fn digits_at(s: &str, start: usize, limit: u64) -> (r: Option<u64>)
    requires
        start <= s@.len(),
    ensures
        match r {
            Some(v) => s@.skip(start as int).len() > 0 && all_digits(s@.skip(start as int))
                && v == digits_value(s@.skip(start as int)) && v <= limit,
            None => !(s@.skip(start as int).len() > 0 && all_digits(s@.skip(start as int))
                && digits_value(s@.skip(start as int)) <= limit),
        },
{
    let len = s.unicode_len();
    let ghost body = s@.skip(start as int);
    if start >= len {
        return None;
    }
    let mut acc: u128 = 0;
    let mut i: usize = start;
    assert(body.subrange(0, 0) =~= Seq::<char>::empty());
    while i < len
        invariant
            start <= i <= len,
            len == s@.len(),
            body == s@.skip(start as int),
            body.len() == len - start,
            all_digits(body.subrange(0, i - start)),
            acc == digits_value(body.subrange(0, i - start)),
            acc <= limit,
        decreases len - i,
    {
        let c = s.get_char(i);
        let ghost pre = body.subrange(0, i - start);
        let ghost next = body.subrange(0, i + 1 - start);
        assert(next.drop_last() =~= pre);
        assert(next.last() == c);
        if !('0' <= c && c <= '9') {
            assert(!is_digit(body[i - start]));
            return None;
        }
        let d: u128 = (c as u32 - 48) as u128;
        acc = acc * 10 + d;
        assert(all_digits(next));
        if acc > limit as u128 {
            proof {
                if all_digits(body) {
                    lemma_digits_value_prefix_bound(body, (i + 1 - start) as int);
                }
            }
            return None;
        }
        i += 1;
    }
    assert(body.subrange(0, len - start) =~= body);
    Some(acc as u64)
}

/// Reads a signed 64-bit integer written in base ten.
pub fn parse_i64(s: &str) -> (r: Option<i64>)
    ensures
        r == parse_i64_spec(s@),
{
    let len = s.unicode_len();
    if len > 0 && s.get_char(0) == '-' {
        match digits_at(s, 1, 9223372036854775808u64) {
            Some(v) => {
                if v == 9223372036854775808u64 {
                    Some(i64::MIN)
                } else {
                    Some(-(v as i64))
                }
            },
            None => None,
        }
    } else if len > 0 && s.get_char(0) == '+' {
        match digits_at(s, 1, i64::MAX as u64) {
            Some(v) => Some(v as i64),
            None => None,
        }
    } else {
        assert(s@.skip(0) =~= s@);
        match digits_at(s, 0, i64::MAX as u64) {
            Some(v) => Some(v as i64),
            None => None,
        }
    }
}

/// Reads an unsigned 64-bit integer written in base ten.
pub fn parse_u64(s: &str) -> (r: Option<u64>)
    ensures
        r == parse_u64_spec(s@),
{
    let len = s.unicode_len();
    if len > 0 && s.get_char(0) == '+' {
        digits_at(s, 1, u64::MAX)
    } else {
        assert(s@.skip(0) =~= s@);
        digits_at(s, 0, u64::MAX)
    }
}

} // verus!

verus! {

/// The field key that a configured path names: the path without a leading `.`,
/// and without the double quotes round a quoted name.
pub open spec fn path_key(p: Seq<char>) -> Seq<char> {
    let q = if p.len() > 0 && p[0] == '.' {
        p.skip(1)
    } else {
        p
    };
    if q.len() >= 2 && q[0] == '"' && q.last() == '"' {
        q.subrange(1, q.len() - 1)
    } else {
        q
    }
}

/// The field key that a configured path names.
pub fn path_key_of(p: &str) -> (r: String)
    ensures
        r@ == path_key(p@),
{
    let len = p.unicode_len();
    let start: usize = if len > 0 && p.get_char(0) == '.' {
        1
    } else {
        0
    };
    let q = p.substring_char(start, len);
    assert(q@ == (if p@.len() > 0 && p@[0] == '.' { p@.skip(1) } else { p@ })) by {
        if start == 0 {
            assert(p@.subrange(0, len as int) =~= p@);
        } else {
            assert(p@.subrange(1, len as int) =~= p@.skip(1));
        }
    }
    let qlen = q.unicode_len();
    if qlen >= 2 && q.get_char(0) == '"' && q.get_char(qlen - 1) == '"' {
        String::from_str(q.substring_char(1, qlen - 1))
    } else {
        String::from_str(q)
    }
}

/// What an ingress value of a date field was: a string or an integer.
#[derive(Clone, Copy, Debug, PartialEq, Eq, Structural)]
pub enum DateKind {
    Bytes,
    Integer,
}

/// The configured date fields and, for each, the kind of value first seen.
///
/// One record serves every group of a reducer, which owns it: recording a kind
/// takes exclusive access (`&mut`), reading one takes shared access (`&`), and a
/// kind once recorded is never replaced.
#[derive(Debug)]
pub struct MezmoMetadata {
    /// Field path and strftime-style format.
    pub date_formats: Vec<(String, String)>,
    /// Field key and the kind of its first parsed value.
    pub date_kinds: Vec<(String, DateKind)>,
}

pub open spec fn kinds_view(k: Seq<(String, DateKind)>) -> Seq<(Seq<char>, DateKind)> {
    Seq::new(k.len(), |i: int| (k[i].0@, k[i].1))
}

pub open spec fn formats_view(f: Seq<(String, String)>) -> Seq<(Seq<char>, Seq<char>)> {
    Seq::new(f.len(), |i: int| (f[i].0@, f[i].1@))
}

/// How a date field arrives: its instant and the kind of value it came as, where
/// it is a string or an integer that the format reads.
pub open spec fn ingress(v: ValueModel, format: Seq<char>) -> Option<(Timestamp, DateKind)> {
    match v {
        ValueModel::Bytes(b) => match parsed_date(b, format) {
            Some(t) => Some((t, DateKind::Bytes)),
            None => None,
        },
        ValueModel::Integer(n) => match parsed_date(decimal_bytes(n as int), format) {
            Some(t) => Some((t, DateKind::Integer)),
            None => None,
        },
        _ => None,
    }
}

/// The fields and recorded kinds after one configured date field is read: a value
/// that parses becomes a timestamp, and its kind is recorded unless one already is.
pub open spec fn ingress_step(
    fields: Seq<(Seq<char>, ValueModel)>,
    kinds: Seq<(Seq<char>, DateKind)>,
    path: Seq<char>,
    format: Seq<char>,
) -> (Seq<(Seq<char>, ValueModel)>, Seq<(Seq<char>, DateKind)>) {
    let key = path_key(path);
    match lookup(fields, key) {
        Some(v) => match ingress(v, format) {
            Some((t, kind)) => (
                put(fields, key, ValueModel::Timestamp(t)),
                if has_key(kinds, key) {
                    kinds
                } else {
                    put(kinds, key, kind)
                },
            ),
            None => (fields, kinds),
        },
        None => (fields, kinds),
    }
}

/// [`ingress_step`] for each configured date field in turn.
pub open spec fn ingress_all(
    fields: Seq<(Seq<char>, ValueModel)>,
    kinds: Seq<(Seq<char>, DateKind)>,
    formats: Seq<(Seq<char>, Seq<char>)>,
) -> (Seq<(Seq<char>, ValueModel)>, Seq<(Seq<char>, DateKind)>)
    decreases formats.len(),
{
    if formats.len() == 0 {
        (fields, kinds)
    } else {
        let (f, k) = ingress_all(fields, kinds, formats.drop_last());
        ingress_step(f, k, formats.last().0, formats.last().1)
    }
}

/// What a timestamp turns back into on egress: the formatted text as a string,
/// or, for a field that arrived as an integer, the integer that the text reads
/// as where it reads as one.
pub open spec fn egress_value(t: Timestamp, format: Seq<char>, kind: DateKind) -> Option<ValueModel> {
    match formatted_date(t, format) {
        Some(s) => Some(
            match kind {
                DateKind::Bytes => ValueModel::Bytes(encode_utf8(s)),
                DateKind::Integer => match parse_i64_spec(s) {
                    Some(n) => ValueModel::Integer(n),
                    None => ValueModel::Bytes(encode_utf8(s)),
                },
            },
        ),
        None => None,
    }
}

/// The fields after one configured date field is written back: where the field
/// and its `_end` sibling both hold timestamps and its kind is recorded, both
/// take the kind they arrived as.
pub open spec fn egress_step(
    fields: Seq<(Seq<char>, ValueModel)>,
    kinds: Seq<(Seq<char>, DateKind)>,
    path: Seq<char>,
    format: Seq<char>,
) -> Seq<(Seq<char>, ValueModel)> {
    let key = path_key(path);
    let end = crate::merge::end_key(key);
    match (lookup(fields, key), lookup(fields, end), lookup(kinds, key)) {
        (Some(ValueModel::Timestamp(s)), Some(ValueModel::Timestamp(e)), Some(kind)) => match (
            egress_value(s, format, kind),
            egress_value(e, format, kind),
        ) {
            (Some(a), Some(b)) => put(put(fields, key, a), end, b),
            _ => fields,
        },
        _ => fields,
    }
}

/// [`egress_step`] for each configured date field in turn.
pub open spec fn egress_all(
    fields: Seq<(Seq<char>, ValueModel)>,
    kinds: Seq<(Seq<char>, DateKind)>,
    formats: Seq<(Seq<char>, Seq<char>)>,
) -> Seq<(Seq<char>, ValueModel)>
    decreases formats.len(),
{
    if formats.len() == 0 {
        fields
    } else {
        egress_step(egress_all(fields, kinds, formats.drop_last()), kinds, formats.last().0, formats.last().1)
    }
}

impl MezmoMetadata {
    pub open spec fn wf(&self) -> bool {
        keys_unique(kinds_view(self.date_kinds@))
    }

    pub open spec fn kinds(&self) -> Seq<(Seq<char>, DateKind)> {
        kinds_view(self.date_kinds@)
    }

    pub open spec fn formats(&self) -> Seq<(Seq<char>, Seq<char>)> {
        formats_view(self.date_formats@)
    }

    /// Date fields with nothing recorded yet.
    pub fn new(date_formats: Vec<(String, String)>) -> (r: MezmoMetadata)
        ensures
            r.wf(),
            r.date_formats == date_formats,
            r.kinds() == Seq::<(Seq<char>, DateKind)>::empty(),
    {
        let r = MezmoMetadata { date_formats, date_kinds: Vec::new() };
        assert(r.kinds() =~= Seq::<(Seq<char>, DateKind)>::empty());
        r
    }

    /// The kind recorded for the field `key`.
    pub fn get_date_kind(&self, key: &String) -> (r: Option<DateKind>)
        requires
            self.wf(),
        ensures
            r == lookup(self.kinds(), key@),
    {
        match find_key(&self.date_kinds, key) {
            Some(i) => {
                proof {
                    lemma_key_index(self.kinds(), i as int);
                }
                Some(self.date_kinds[i].1)
            },
            None => {
                assert(!has_key(self.kinds(), key@));
                None
            },
        }
    }

    /// Records `kind` for the field `key`, unless a kind is already recorded:
    /// the first observation wins.
    pub fn save_date_kind(&mut self, key: String, kind: DateKind)
        requires
            old(self).wf(),
        ensures
            final(self).wf(),
            final(self).date_formats == old(self).date_formats,
            final(self).kinds() == if has_key(old(self).kinds(), key@) {
                old(self).kinds()
            } else {
                put(old(self).kinds(), key@, kind)
            },
    {
        match find_key(&self.date_kinds, &key) {
            Some(i) => {
                proof {
                    lemma_key_index(self.kinds(), i as int);
                }
            },
            None => {
                let ghost before = self.kinds();
                assert(!has_key(before, key@));
                let ghost kk = key@;
                self.date_kinds.push((key, kind));
                assert(self.kinds() =~= before.push((kk, kind)));
            },
        }
    }
}



impl MezmoMetadata {
    /// Reads the configured date fields of `fields`: each value that parses becomes
    /// a timestamp, and the kind it arrived as is recorded if none is yet.
    pub fn coerce_into_timestamp_if_needed(&mut self, fields: &mut Vec<(String, Value)>)
        requires
            old(self).wf(),
            keys_unique(fields_view(old(fields))),
        ensures
            final(self).wf(),
            keys_unique(fields_view(final(fields))),
            final(self).date_formats == old(self).date_formats,
            (fields_view(final(fields)), final(self).kinds()) == ingress_all(
                fields_view(old(fields)),
                old(self).kinds(),
                old(self).formats(),
            ),
    {
        let ghost f0 = fields_view(fields);
        let ghost k0 = self.kinds();
        let ghost formats = self.formats();
        let mut i: usize = 0;
        assert(formats.subrange(0, 0) =~= Seq::<(Seq<char>, Seq<char>)>::empty());
        while i < self.date_formats.len()
            invariant
                self.wf(),
                keys_unique(fields_view(fields)),
                i <= self.date_formats.len(),
                self.date_formats == old(self).date_formats,
                self.formats() == formats,
                formats.len() == self.date_formats.len(),
                (fields_view(fields), self.kinds()) == ingress_all(f0, k0, formats.subrange(0, i as int)),
            decreases self.date_formats.len() - i,
        {
            let ghost prefix = formats.subrange(0, i + 1);
            assert(prefix.drop_last() =~= formats.subrange(0, i as int));
            assert(prefix.last() == formats[i as int]);
            let key = path_key_of(self.date_formats[i].0.as_str());
            let ghost fb = fields_view(fields);
            proof {
                lemma_fields_view(fields);
            }
            match find_key(fields, &key) {
                Some(j) => {
                    proof {
                        lemma_key_index(fb, j as int);
                    }
                    let parsed = match &fields[j].1 {
                        Value::Bytes(b) => match parse_date(b, self.date_formats[i].1.as_str()) {
                            Some(t) => Some((t, DateKind::Bytes)),
                            None => None,
                        },
                        Value::Integer(n) => {
                            let text = decimal_of(*n);
                            match parse_date(&text, self.date_formats[i].1.as_str()) {
                                Some(t) => Some((t, DateKind::Integer)),
                                None => None,
                            }
                        },
                        _ => None,
                    };
                    match parsed {
                        Some((t, kind)) => {
                            let k2 = key.clone();
                            self.save_date_kind(k2, kind);
                            put_field(fields, key, Value::Timestamp(t));
                        },
                        None => {},
                    }
                },
                None => {
                    assert(!has_key(fb, key@));
                },
            }
            i += 1;
        }
        assert(formats.subrange(0, i as int) =~= formats);
    }

    /// Writes the configured date fields of `fields` back in the kind they arrived
    /// as (see [`egress_step`]).
    pub fn coerce_from_timestamp_if_needed(&self, fields: &mut Vec<(String, Value)>)
        requires
            self.wf(),
            keys_unique(fields_view(old(fields))),
        ensures
            keys_unique(fields_view(final(fields))),
            fields_view(final(fields)) == egress_all(fields_view(old(fields)), self.kinds(), self.formats()),
    {
        let ghost f0 = fields_view(fields);
        let ghost formats = self.formats();
        let mut i: usize = 0;
        assert(formats.subrange(0, 0) =~= Seq::<(Seq<char>, Seq<char>)>::empty());
        while i < self.date_formats.len()
            invariant
                self.wf(),
                keys_unique(fields_view(fields)),
                i <= self.date_formats.len(),
                formats == self.formats(),
                formats.len() == self.date_formats.len(),
                fields_view(fields) == egress_all(f0, self.kinds(), formats.subrange(0, i as int)),
            decreases self.date_formats.len() - i,
        {
            let ghost prefix = formats.subrange(0, i + 1);
            assert(prefix.drop_last() =~= formats.subrange(0, i as int));
            assert(prefix.last() == formats[i as int]);
            let key = path_key_of(self.date_formats[i].0.as_str());
            let end = key.clone().concat("_end");
            let format = self.date_formats[i].1.as_str();
            let ghost fb = fields_view(fields);
            proof {
                lemma_fields_view(fields);
            }
            let start_ts = timestamp_at(fields, &key);
            let end_ts = timestamp_at(fields, &end);
            let kind = self.get_date_kind(&key);
            match (start_ts, end_ts, kind) {
                (Some(s), Some(e), Some(kind)) => {
                    let a = egress_of(s, format, kind);
                    let b = egress_of(e, format, kind);
                    match (a, b) {
                        (Some(a), Some(b)) => {
                            put_field(fields, key, a);
                            put_field(fields, end, b);
                        },
                        _ => {},
                    }
                },
                _ => {},
            }
            i += 1;
        }
        assert(formats.subrange(0, i as int) =~= formats);
    }
}

/// The timestamp stored under `key`, if the field holds one.
fn timestamp_at(fields: &Vec<(String, Value)>, key: &String) -> (r: Option<Timestamp>)
    requires
        keys_unique(fields_view(fields)),
    ensures
        match lookup(fields_view(fields), key@) {
            Some(ValueModel::Timestamp(t)) => r == Some(t),
            _ => r is None,
        },
{
    proof {
        lemma_fields_view(fields);
    }
    match find_key(fields, key) {
        Some(j) => {
            proof {
                lemma_key_index(fields_view(fields), j as int);
            }
            match &fields[j].1 {
                Value::Timestamp(t) => Some(*t),
                _ => None,
            }
        },
        None => {
            assert(!has_key(fields_view(fields), key@));
            None
        },
    }
}

/// The value a timestamp turns back into (see [`egress_value`]).
fn egress_of(t: Timestamp, format: &str, kind: DateKind) -> (r: Option<Value>)
    ensures
        match r {
            Some(v) => egress_value(t, format@, kind) == Some(v@),
            None => egress_value(t, format@, kind) is None,
        },
{
    match format_date(t, format) {
        Some(s) => {
            let bytes = vstd::slice::slice_to_vec(s.as_str().as_bytes());
            match kind {
                DateKind::Bytes => Some(Value::Bytes(bytes)),
                DateKind::Integer => match parse_i64(s.as_str()) {
                    Some(n) => Some(Value::Integer(n)),
                    None => Some(Value::Bytes(bytes)),
                },
            }
        },
        None => None,
    }
}

/// Whether every configured date format is one chrono accepts.
pub fn date_formats_valid(formats: &Vec<(String, String)>) -> (r: bool)
    ensures
        r == forall|i: int| 0 <= i < formats.len() ==> valid_date_format(#[trigger] formats@[i].1@),
{
    let mut i: usize = 0;
    while i < formats.len()
        invariant
            i <= formats.len(),
            forall|j: int| 0 <= j < i ==> valid_date_format(#[trigger] formats@[j].1@),
        decreases formats.len() - i,
    {
        if !check_date_format(formats[i].1.as_str()) {
            return false;
        }
        i += 1;
    }
    true
}

} // verus!

verus! {

/// A date field goes out as the kind it came in as: where a value arrives as a
/// string that the format reads, it is recorded as `Bytes` (unless a kind is
/// recorded already), and an instant of that field goes out as the formatted
/// string; where it arrives as an integer it is recorded as `Integer`, and goes
/// out as the integer that the formatted text reads as, where it reads as one.
pub proof fn lemma_date_kind_round_trip(
    fields: Seq<(Seq<char>, ValueModel)>,
    kinds: Seq<(Seq<char>, DateKind)>,
    path: Seq<char>,
    format: Seq<char>,
    t: Timestamp,
)
    requires
        keys_unique(fields),
        keys_unique(kinds),
        !has_key(kinds, path_key(path)),
        lookup(fields, path_key(path)) matches Some(v) && ingress(v, format) is Some,
        formatted_date(t, format) is Some,
    ensures
        ({
            let v = lookup(fields, path_key(path))->Some_0;
            let kinds2 = ingress_step(fields, kinds, path, format).1;
            let text = formatted_date(t, format)->Some_0;
            let kind = lookup(kinds2, path_key(path))->Some_0;
            &&& lookup(kinds2, path_key(path)) is Some
            &&& v is Bytes ==> egress_value(t, format, kind) == Some(ValueModel::Bytes(encode_utf8(text)))
            &&& v is Integer ==> match parse_i64_spec(text) {
                Some(n) => egress_value(t, format, kind) == Some(ValueModel::Integer(n)),
                None => egress_value(t, format, kind) == Some(ValueModel::Bytes(encode_utf8(text))),
            }
        }),
{
    let key = path_key(path);
    let v = lookup(fields, key)->Some_0;
    let kind = ingress(v, format)->Some_0.1;
    lemma_put(kinds, key, kind);
}

} // verus!
