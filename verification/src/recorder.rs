//! The `--log` record: one JSON object per line for each ping sample and for
//! each start and end of an outage.

use vstd::prelude::*;

use crate::text::push_fixed_point;
use crate::text::{decimal, decimal_string, fixed_point, fixed_point_value, pow10};
use crate::text::{all_digits, decimal_value, law_decimal_reads_back};
use crate::text::{law_fixed_point_reads_back, lemma_decimal_digits};
use crate::text::{lemma_fixed_point_printable, printable};
use crate::time::{epoch_millis, opt_nanos, to_ms};
use crate::time::{Duration, SystemTime, NANOS_PER_MILLI};

verus! {

/// The character of a hexadecimal digit, in lower case.
pub open spec fn hex_char(d: nat) -> char {
    if d < 10 {
        ('0' as nat + d) as char
    } else {
        ('a' as nat + d - 10) as char
    }
}

/// How one character is written inside a JSON string.
pub open spec fn escaped_char(c: char) -> Seq<char> {
    if c == '"' {
        seq!['\\', '"']
    } else if c == '\\' {
        seq!['\\', '\\']
    } else if c == '\n' {
        seq!['\\', 'n']
    } else if c == '\r' {
        seq!['\\', 'r']
    } else if c == '\t' {
        seq!['\\', 't']
    } else if (c as nat) < 0x20 {
        seq!['\\', 'u', '0', '0', hex_char(c as nat / 16), hex_char(c as nat % 16)]
    } else {
        seq![c]
    }
}

/// How a text is written inside a JSON string.
pub open spec fn escaped(s: Seq<char>) -> Seq<char>
    decreases s.len(),
{
    if s.len() == 0 {
        seq![]
    } else {
        escaped(s.drop_last()) + escaped_char(s.last())
    }
}

/// The character of a hexadecimal digit, in lower case.
fn hex_digit(d: u8) -> (c: char)
    requires
        d < 16,
    ensures
        c == hex_char(d as nat),
{
    if d < 10 {
        (48u8 + d) as char
    } else {
        (87u8 + d) as char
    }
}

/// Appends one character as it is written inside a JSON string.
fn push_escaped(out: &mut String, c: char)
    ensures
        final(out)@ == old(out)@ + escaped_char(c),
{
    proof {
        reveal_strlit("\\\"");
        reveal_strlit("\\\\");
        reveal_strlit("\\n");
        reveal_strlit("\\r");
        reveal_strlit("\\t");
        reveal_strlit("\\u00");
    }
    if c == '"' {
        out.append("\\\"");
    } else if c == '\\' {
        out.append("\\\\");
    } else if c == '\n' {
        out.append("\\n");
    } else if c == '\r' {
        out.append("\\r");
    } else if c == '\t' {
        out.append("\\t");
    } else if (c as u32) < 0x20 {
        out.append("\\u00");
        out.push(hex_digit((c as u32 / 16) as u8));
        out.push(hex_digit((c as u32 % 16) as u8));
    } else {
        out.push(c);
    }
    assert(out@ =~= old(out)@ + escaped_char(c));
}

/// Minimal JSON string escaping. Hosts are DNS names or IP literals in
/// practice, but escaped properly (control chars, quotes, backslashes)
/// rather than assumed safe.
pub fn escape_json(s: &str) -> (out: String)
    ensures
        out@ == escaped(s@),
{
    let mut out = String::new();
    for c in it: s.chars()
        invariant
            it.seq() == s@,
            out@ == escaped(s@.take(it.index() as int)),
    {
        push_escaped(&mut out, c);
        proof {
            let i = it.index() as int;
            assert(s@.take(i + 1).drop_last() =~= s@.take(i));
        }
    }
    assert(s@.take(s@.len() as int) =~= s@);
    out
}

/// A text as a JSON string.
pub open spec fn quoted(s: Seq<char>) -> Seq<char> {
    seq!['"'] + escaped(s) + seq!['"']
}

/// One member of a JSON object: its key, which needs no escaping, and the text
/// of its value.
pub open spec fn member(key: Seq<char>, value: Seq<char>) -> Seq<char> {
    seq!['"'] + key + seq!['"', ':'] + value
}

/// The members of a JSON object, separated by commas.
pub open spec fn members(fields: Seq<(Seq<char>, Seq<char>)>) -> Seq<char>
    decreases fields.len(),
{
    if fields.len() == 0 {
        seq![]
    } else if fields.len() == 1 {
        member(fields[0].0, fields[0].1)
    } else {
        members(fields.drop_last()) + seq![','] + member(fields.last().0, fields.last().1)
    }
}

/// A JSON object.
pub open spec fn object(fields: Seq<(Seq<char>, Seq<char>)>) -> Seq<char> {
    seq!['{'] + members(fields) + seq!['}']
}

/// The `rtt_ms` of a sample: milliseconds with their decimal fraction, or
/// `null` on timeout.
pub open spec fn rtt_text(rtt: Option<nat>) -> Seq<char> {
    match rtt {
        Some(nanos) => fixed_point(nanos, 6),
        None => "null"@,
    }
}

/// The fields of a ping sample.
pub open spec fn sample_fields(ts: nat, host: Seq<char>, rtt: Option<nat>) -> Seq<
    (Seq<char>, Seq<char>),
> {
    seq![("ts"@, decimal(ts)), ("host"@, quoted(host)), ("rtt_ms"@, rtt_text(rtt))]
}

/// The fields of the start of an outage.
pub open spec fn outage_start_fields(ts: nat, host: Seq<char>) -> Seq<(Seq<char>, Seq<char>)> {
    seq![("ts"@, decimal(ts)), ("host"@, quoted(host)), ("event"@, quoted("outage_start"@))]
}

/// The fields of the end of an outage.
pub open spec fn outage_end_fields(ts: nat, host: Seq<char>, duration_ms: nat) -> Seq<
    (Seq<char>, Seq<char>),
> {
    seq![
        ("ts"@, decimal(ts)),
        ("host"@, quoted(host)),
        ("event"@, quoted("outage_end"@)),
        ("duration_ms"@, decimal(duration_ms)),
    ]
}

/// A text as a JSON string.
fn quote(s: &str) -> (out: String)
    ensures
        out@ == quoted(s@),
{
    let mut out = String::new();
    out.push('"');
    out.append(escape_json(s).as_str());
    out.push('"');
    assert(out@ =~= quoted(s@));
    out
}

/// Appends one member of a JSON object.
fn push_member(out: &mut String, key: &str, value: &str)
    ensures
        final(out)@ == old(out)@ + member(key@, value@),
{
    out.push('"');
    out.append(key);
    out.push('"');
    out.push(':');
    out.append(value);
    assert(out@ =~= old(out)@ + member(key@, value@));
}

/// The text of an RTT in milliseconds, `null` on timeout.
fn rtt_ms(rtt: Option<Duration>) -> (out: String)
    ensures
        out@ == rtt_text(opt_nanos(rtt)),
{
    match rtt {
        Some(d) => {
            let mut out = String::new();
            push_fixed_point(&mut out, d.as_nanos(), 6);
            assert(out@ =~= fixed_point(d@, 6));
            out
        },
        None => "null".to_string(),
    }
}

/// Collects newline-delimited JSON records. Whatever is written goes at the
/// end; what has not been handed over yet is the view.
pub struct Recorder {
    pending: String,
}

impl View for Recorder {
    type V = Seq<char>;

    closed spec fn view(&self) -> Seq<char> {
        self.pending@
    }
}

impl Recorder {
    /// Nothing recorded yet.
    pub fn new() -> (r: Recorder)
        ensures
            r@ == Seq::<char>::empty(),
    {
        Recorder { pending: String::new() }
    }

    /// Logs one ping sample. `rtt` is `None` on timeout, so JSONL
    /// consumers can distinguish "no reply" from "reply was 0ms".
    pub fn log_sample(&mut self, now: SystemTime, host: &str, rtt: Option<Duration>)
        ensures
            final(self)@ == old(self)@ + object(
                sample_fields(epoch_millis(now@), host@, opt_nanos(rtt)),
            ) + seq!['\n'],
    {
        let mut line = String::new();
        line.push('{');
        push_member(&mut line, "ts", decimal_string(to_ms(now)).as_str());
        line.push(',');
        push_member(&mut line, "host", quote(host).as_str());
        line.push(',');
        push_member(&mut line, "rtt_ms", rtt_ms(rtt).as_str());
        line.push('}');
        proof {
            let fields = sample_fields(epoch_millis(now@), host@, opt_nanos(rtt));
            lemma_three_members(fields);
            assert(line@ =~= object(fields));
        }
        self.write_line(line.as_str());
    }

    /// Logs an outage declaration, i.e. the moment consecutive timeouts
    /// crossed the outage threshold. `started_wall` is the wall-clock time of
    /// that moment (not "now").
    pub fn log_outage_start(&mut self, host: &str, started_wall: SystemTime)
        ensures
            final(self)@ == old(self)@ + object(
                outage_start_fields(epoch_millis(started_wall@), host@),
            ) + seq!['\n'],
    {
        let mut line = String::new();
        line.push('{');
        push_member(&mut line, "ts", decimal_string(to_ms(started_wall)).as_str());
        line.push(',');
        push_member(&mut line, "host", quote(host).as_str());
        line.push(',');
        push_member(&mut line, "event", quote("outage_start").as_str());
        line.push('}');
        proof {
            let fields = outage_start_fields(epoch_millis(started_wall@), host@);
            lemma_three_members(fields);
            assert(line@ =~= object(fields));
        }
        self.write_line(line.as_str());
    }

    /// Logs an outage's recovery, including how long it lasted. `ended_wall`
    /// is the start plus `duration`, so that the record and the printed outage
    /// line agree on the end time.
    pub fn log_outage_end(&mut self, host: &str, ended_wall: SystemTime, duration: Duration)
        ensures
            final(self)@ == old(self)@ + object(
                outage_end_fields(
                    epoch_millis(ended_wall@),
                    host@,
                    duration@ / (NANOS_PER_MILLI as nat),
                ),
            ) + seq!['\n'],
    {
        let mut line = String::new();
        line.push('{');
        push_member(&mut line, "ts", decimal_string(to_ms(ended_wall)).as_str());
        line.push(',');
        push_member(&mut line, "host", quote(host).as_str());
        line.push(',');
        push_member(&mut line, "event", quote("outage_end").as_str());
        line.push(',');
        push_member(
            &mut line,
            "duration_ms",
            decimal_string(duration.as_millis()).as_str(),
        );
        line.push('}');
        proof {
            let fields = outage_end_fields(
                epoch_millis(ended_wall@),
                host@,
                duration@ / (NANOS_PER_MILLI as nat),
            );
            lemma_three_members(fields.drop_last());
            assert(line@ =~= object(fields));
        }
        self.write_line(line.as_str());
    }

    /// Adds one line.
    fn write_line(&mut self, line: &str)
        ensures
            final(self)@ == old(self)@ + line@ + seq!['\n'],
    {
        self.pending.append(line);
        self.pending.push('\n');
        assert(self.pending@ =~= old(self).pending@ + line@ + seq!['\n']);
    }

    /// Hands over what was recorded since the last time.
    pub fn take(&mut self) -> (text: String)
        ensures
            text@ == old(self)@,
            final(self)@ == Seq::<char>::empty(),
    {
        let text = self.pending.clone();
        self.pending = String::new();
        text
    }
}

/// Three members, one after the other.
proof fn lemma_three_members(fields: Seq<(Seq<char>, Seq<char>)>)
    requires
        fields.len() == 3,
    ensures
        members(fields) == member(fields[0].0, fields[0].1) + seq![','] + member(
            fields[1].0,
            fields[1].1,
        ) + seq![','] + member(fields[2].0, fields[2].1),
{
    let two = fields.drop_last();
    let one = two.drop_last();
    assert(members(one) == member(fields[0].0, fields[0].1));
    assert(members(two) == members(one) + seq![','] + member(fields[1].0, fields[1].1));
}

/// The value of a hexadecimal digit, if `c` is one.
pub open spec fn hex_value(c: char) -> Option<nat> {
    if '0' <= c <= '9' {
        Some((c as nat - '0' as nat) as nat)
    } else if 'a' <= c <= 'f' {
        Some((c as nat - 'a' as nat + 10) as nat)
    } else if 'A' <= c <= 'F' {
        Some((c as nat - 'A' as nat + 10) as nat)
    } else {
        None
    }
}

/// The character that the four hexadecimal digits of a JSON escape stand for,
/// if they stand for one.
pub open spec fn unicode_escape(digits: Seq<char>) -> Option<char>
    recommends
        digits.len() == 4,
{
    match (
        hex_value(digits[0]),
        hex_value(digits[1]),
        hex_value(digits[2]),
        hex_value(digits[3]),
    ) {
        (Some(a), Some(b), Some(c), Some(d)) => {
            let code = 4096 * a + 256 * b + 16 * c + d;
            if 0xd800 <= code <= 0xdfff {
                None
            } else {
                Some(code as char)
            }
        },
        _ => None,
    }
}

/// The character that a backslash and `c` stand for in a JSON string, if they
/// stand for one.
pub open spec fn simple_escape(c: char) -> Option<char> {
    if c == '"' || c == '\\' || c == '/' {
        Some(c)
    } else if c == 'b' {
        Some('\u{8}')
    } else if c == 'f' {
        Some('\u{c}')
    } else if c == 'n' {
        Some('\n')
    } else if c == 'r' {
        Some('\r')
    } else if c == 't' {
        Some('\t')
    } else {
        None
    }
}

/// Puts `c` before what was read.
pub open spec fn read_before(c: char, r: Option<(Seq<char>, Seq<char>)>) -> Option<
    (Seq<char>, Seq<char>),
> {
    match r {
        Some((text, rest)) => Some((seq![c] + text, rest)),
        None => None,
    }
}

/// Reads a JSON string whose opening quote has been read: the text that it
/// stands for, and what follows its closing quote. `None` where there is no
/// such string.
pub open spec fn read_string(s: Seq<char>) -> Option<(Seq<char>, Seq<char>)>
    decreases s.len(),
{
    if s.len() == 0 {
        None
    } else if s[0] == '"' {
        Some((seq![], s.skip(1)))
    } else if s[0] == '\\' {
        if s.len() < 2 {
            None
        } else if s[1] == 'u' {
            if s.len() < 6 {
                None
            } else {
                match unicode_escape(s.subrange(2, 6)) {
                    Some(c) => read_before(c, read_string(s.skip(6))),
                    None => None,
                }
            }
        } else {
            match simple_escape(s[1]) {
                Some(c) => read_before(c, read_string(s.skip(2))),
                None => None,
            }
        }
    } else if (s[0] as nat) < 0x20 {
        None
    } else {
        read_before(s[0], read_string(s.skip(1)))
    }
}

/// A text is escaped from its first character on.
proof fn lemma_escaped_first(s: Seq<char>)
    requires
        s.len() > 0,
    ensures
        escaped(s) == escaped_char(s[0]) + escaped(s.skip(1)),
    decreases s.len(),
{
    if s.len() == 1 {
        assert(s.drop_last() =~= seq![]);
        assert(s.skip(1) =~= seq![]);
        assert(escaped(s) =~= escaped_char(s[0]) + escaped(s.skip(1)));
    } else {
        lemma_escaped_first(s.drop_last());
        assert(s.drop_last().skip(1) =~= s.skip(1).drop_last());
        assert(escaped(s) =~= escaped_char(s[0]) + escaped(s.skip(1)));
    }
}

/// Reading one escaped character gives that character back.
proof fn lemma_read_escaped_char(c: char, rest: Seq<char>)
    ensures
        read_string(escaped_char(c) + rest) == read_before(c, read_string(rest)),
{
    let e = escaped_char(c);
    let s = e + rest;
    assert(s.skip(e.len() as int) =~= rest);
    if e.len() == 6 {
        let d = s.subrange(2, 6);
        let hi = c as nat / 16;
        let lo = c as nat % 16;
        assert(d =~= seq!['0', '0', hex_char(hi), hex_char(lo)]);
        assert(hi < 2);
        assert(hex_value('0') == Some(0nat));
        assert(hex_value(hex_char(hi)) == Some(hi));
        assert(hex_value(hex_char(lo)) == Some(lo));
        assert(unicode_escape(d) == Some(c));
    }
}

/// A text that was escaped and put in quotes reads back as it was, and the
/// string ends at its closing quote: nothing in the text can end it early.
pub proof fn law_escaped_reads_back(s: Seq<char>, rest: Seq<char>)
    ensures
        read_string(escaped(s) + seq!['"'] + rest) == Some((s, rest)),
    decreases s.len(),
{
    if s.len() == 0 {
        assert((escaped(s) + seq!['"'] + rest).skip(1) =~= rest);
        assert(s =~= seq![]);
    } else {
        lemma_escaped_first(s);
        let tail = s.skip(1);
        law_escaped_reads_back(tail, rest);
        let after = escaped(tail) + seq!['"'] + rest;
        assert(escaped(s) + seq!['"'] + rest =~= escaped_char(s[0]) + after);
        lemma_read_escaped_char(s[0], after);
        assert(seq![s[0]] + tail =~= s);
    }
}

/// Different texts are escaped differently.
pub proof fn law_escaping_is_injective(s: Seq<char>, t: Seq<char>)
    requires
        escaped(s) == escaped(t),
    ensures
        s == t,
{
    law_escaped_reads_back(s, seq![]);
    law_escaped_reads_back(t, seq![]);
}

/// Escaped text holds no control character, so no line break.
pub proof fn law_escaped_is_printable(s: Seq<char>)
    ensures
        printable(escaped(s)),
    decreases s.len(),
{
    if s.len() > 0 {
        law_escaped_is_printable(s.drop_last());
        assert(printable(escaped_char(s.last())));
    }
}

/// A text without quotes, backslashes and control characters is written as it
/// is.
pub proof fn law_plain_text_is_unchanged(s: Seq<char>)
    requires
        forall|i: int|
            0 <= i < s.len() ==> #[trigger] s[i] != '"' && s[i] != '\\' && s[i] as nat >= 0x20,
    ensures
        escaped(s) == s,
    decreases s.len(),
{
    if s.len() > 0 {
        let init = s.drop_last();
        assert forall|i: int| 0 <= i < init.len() implies #[trigger] init[i] != '"' && init[i]
            != '\\' && init[i] as nat >= 0x20 by {
            assert(init[i] == s[i]);
        }
        law_plain_text_is_unchanged(init);
        assert(s[s.len() - 1] != '"');
        assert(escaped(s) =~= s);
    }
}

/// An object of printable members is printable.
proof fn lemma_object_printable(fields: Seq<(Seq<char>, Seq<char>)>)
    requires
        forall|i: int|
            0 <= i < fields.len() ==> printable(#[trigger] fields[i].0) && printable(fields[i].1),
    ensures
        printable(members(fields)),
        printable(object(fields)),
    decreases fields.len(),
{
    if fields.len() > 0 {
        let init = fields.drop_last();
        assert forall|i: int| 0 <= i < init.len() implies printable(#[trigger] init[i].0)
            && printable(init[i].1) by {
            assert(init[i] == fields[i]);
        }
        lemma_object_printable(init);
        let last = fields[fields.len() - 1];
        assert(printable(last.0));
        assert(printable(member(last.0, last.1)));
    }
}

/// The keys of the records, and their fixed values, are printable.
proof fn lemma_names_printable()
    ensures
        printable("ts"@),
        printable("host"@),
        printable("rtt_ms"@),
        printable("event"@),
        printable("duration_ms"@),
        printable("null"@),
{
    reveal_strlit("ts");
    reveal_strlit("host");
    reveal_strlit("rtt_ms");
    reveal_strlit("event");
    reveal_strlit("duration_ms");
    reveal_strlit("null");
}

/// Each record is one line, whatever the host: it holds no line break and no
/// other control character.
pub proof fn law_records_are_single_lines(
    ts: nat,
    host: Seq<char>,
    rtt: Option<nat>,
    duration_ms: nat,
)
    ensures
        printable(object(sample_fields(ts, host, rtt))),
        printable(object(outage_start_fields(ts, host))),
        printable(object(outage_end_fields(ts, host, duration_ms))),
{
    lemma_names_printable();
    lemma_decimal_digits(ts);
    lemma_decimal_digits(duration_ms);
    law_escaped_is_printable(host);
    law_escaped_is_printable("outage_start"@);
    law_escaped_is_printable("outage_end"@);
    if let Some(nanos) = rtt {
        lemma_fixed_point_printable(nanos, 6);
    }
    lemma_object_printable(sample_fields(ts, host, rtt));
    lemma_object_printable(outage_start_fields(ts, host));
    lemma_object_printable(outage_end_fields(ts, host, duration_ms));
}

/// A timeout is never logged like a reply, not even like one after 0ms.
pub proof fn law_timeout_differs_from_any_reply(nanos: nat)
    ensures
        rtt_text(None) != rtt_text(Some(nanos)),
{
    reveal_strlit("null");
    let unit = pow10(6);
    let whole = decimal(nanos / unit);
    lemma_decimal_digits(nanos / unit);
    assert(fixed_point(nanos, 6)[0] == whole[0]);
    assert(rtt_text(None)[0] == 'n');
}

/// The `rtt_ms` of a reply reads back as its RTT, to the nanosecond.
pub proof fn law_rtt_reads_back(nanos: nat)
    ensures
        fixed_point_value(rtt_text(Some(nanos)), 6) == nanos,
{
    law_fixed_point_reads_back(nanos, 6);
}

/// `key` is among the keys of `fields`.
pub open spec fn has_field(fields: Seq<(Seq<char>, Seq<char>)>, key: Seq<char>) -> bool {
    exists|i: int| 0 <= i < fields.len() && (#[trigger] fields[i]).0 == key
}

/// Sample records have an `rtt_ms` and no `event`; outage records have an
/// `event` and no `rtt_ms`; only the end of an outage has a `duration_ms`.
pub proof fn law_record_kinds_are_told_by_fields(
    ts: nat,
    host: Seq<char>,
    rtt: Option<nat>,
    duration_ms: nat,
)
    ensures
        has_field(sample_fields(ts, host, rtt), "rtt_ms"@),
        !has_field(sample_fields(ts, host, rtt), "event"@),
        !has_field(sample_fields(ts, host, rtt), "duration_ms"@),
        has_field(outage_start_fields(ts, host), "event"@),
        !has_field(outage_start_fields(ts, host), "rtt_ms"@),
        !has_field(outage_start_fields(ts, host), "duration_ms"@),
        has_field(outage_end_fields(ts, host, duration_ms), "event"@),
        has_field(outage_end_fields(ts, host, duration_ms), "duration_ms"@),
        !has_field(outage_end_fields(ts, host, duration_ms), "rtt_ms"@),
{
    reveal_strlit("ts");
    reveal_strlit("host");
    reveal_strlit("rtt_ms");
    reveal_strlit("event");
    reveal_strlit("duration_ms");
    assert("ts"@.len() == 2 && "host"@.len() == 4 && "rtt_ms"@.len() == 6);
    assert("event"@.len() == 5 && "duration_ms"@.len() == 11);
    assert(sample_fields(ts, host, rtt)[2].0 == "rtt_ms"@);
    assert(outage_start_fields(ts, host)[2].0 == "event"@);
    assert(outage_end_fields(ts, host, duration_ms)[2].0 == "event"@);
    assert(outage_end_fields(ts, host, duration_ms)[3].0 == "duration_ms"@);
}

/// What comes before the text of the host in a record.
pub open spec fn host_prefix(ts: nat) -> Seq<char> {
    seq!['{'] + member("ts"@, decimal(ts)) + seq![',', '"'] + "host"@ + seq!['"', ':', '"']
}

/// The members from the third on follow the first two.
proof fn lemma_members_start(fields: Seq<(Seq<char>, Seq<char>)>)
    requires
        fields.len() >= 2,
    ensures
        ({
            let start = member(fields[0].0, fields[0].1) + seq![','] + member(
                fields[1].0,
                fields[1].1,
            );
            &&& members(fields).len() >= start.len()
            &&& members(fields).take(start.len() as int) == start
        }),
    decreases fields.len(),
{
    let init = fields.drop_last();
    let start = member(fields[0].0, fields[0].1) + seq![','] + member(fields[1].0, fields[1].1);
    if fields.len() == 2 {
        assert(members(init) == member(fields[0].0, fields[0].1));
        assert(members(fields) =~= start);
        assert(members(fields).take(start.len() as int) =~= start);
    } else {
        lemma_members_start(init);
        assert(members(fields).take(start.len() as int) =~= members(init).take(
            start.len() as int,
        ));
    }
}

/// Two members whose second is a string: its text follows its opening quote.
proof fn lemma_second_is_string(
    key: Seq<char>,
    value: Seq<char>,
    name: Seq<char>,
    text: Seq<char>,
)
    ensures
        seq!['{'] + (member(key, value) + seq![','] + member(
            name,
            seq!['"'] + text + seq!['"'],
        )) == (seq!['{'] + member(key, value) + seq![',', '"'] + name + seq!['"', ':', '"']) + (
        text + seq!['"']),
{
    let first = member(key, value);
    assert(seq!['{'] + (first + seq![','] + (seq!['"'] + name + seq!['"', ':'] + (seq!['"'] + text
        + seq!['"']))) =~= (seq!['{'] + first + seq![',', '"'] + name + seq!['"', ':', '"']) + (text
        + seq!['"']));
}

/// What follows a start, closed by a brace.
proof fn lemma_object_split(all: Seq<char>, start: Seq<char>, prefix: Seq<char>, body: Seq<char>)
    requires
        all.len() >= start.len(),
        all.take(start.len() as int) == start,
        seq!['{'] + start == prefix + body,
    ensures
        ({
            let text = seq!['{'] + all + seq!['}'];
            let rest = all.skip(start.len() as int) + seq!['}'];
            &&& prefix.len() <= text.len()
            &&& text.take(prefix.len() as int) == prefix
            &&& text.skip(prefix.len() as int) == body + rest
        }),
{
    let text = seq!['{'] + all + seq!['}'];
    let rest = all.skip(start.len() as int) + seq!['}'];
    assert(text =~= (seq!['{'] + start) + rest) by {
        assert(all =~= all.take(start.len() as int) + all.skip(start.len() as int));
    }
    assert(text =~= prefix + (body + rest));
    assert(text.take(prefix.len() as int) =~= prefix);
    assert(text.skip(prefix.len() as int) =~= body + rest);
}

/// The host that was logged reads back from any record, whatever characters it
/// holds.
pub proof fn law_host_reads_back(ts: nat, host: Seq<char>, fields: Seq<(Seq<char>, Seq<char>)>)
    requires
        fields.len() >= 2,
        fields[0] == ("ts"@, decimal(ts)),
        fields[1] == ("host"@, quoted(host)),
    ensures
        host_prefix(ts).len() <= object(fields).len(),
        object(fields).take(host_prefix(ts).len() as int) == host_prefix(ts),
        ({
            let read = read_string(object(fields).skip(host_prefix(ts).len() as int));
            read matches Some((text, rest)) && text == host
        }),
{
    let all = members(fields);
    let start = member("ts"@, decimal(ts)) + seq![','] + member("host"@, quoted(host));
    let body = escaped(host) + seq!['"'];
    lemma_members_start(fields);
    lemma_second_is_string("ts"@, decimal(ts), "host"@, escaped(host));
    lemma_object_split(all, start, host_prefix(ts), body);
    law_escaped_reads_back(host, all.skip(start.len() as int) + seq!['}']);
}

/// A text is escaped character by character. Quotes, backslashes, line breaks,
/// carriage returns and tabs have an escape of two characters; any other control
/// character one of six, with its number.
pub proof fn law_escapes(a: Seq<char>, b: Seq<char>, c: char)
    ensures
        escaped(a + b) == escaped(a) + escaped(b),
        escaped(seq![]) == Seq::<char>::empty(),
        escaped(seq!['"']) == "\\\""@,
        escaped(seq!['\\']) == "\\\\"@,
        escaped(seq!['\n']) == "\\n"@,
        escaped(seq!['\r']) == "\\r"@,
        escaped(seq!['\t']) == "\\t"@,
        (c as nat) < 0x20 && c != '\n' && c != '\r' && c != '\t' ==> {
            let e = escaped(seq![c]);
            &&& e.len() == 6
            &&& e.take(2) == "\\u"@
            &&& unicode_escape(e.skip(2)) == Some(c)
            &&& forall|i: int| 2 <= i < 6 ==> !('A' <= #[trigger] e[i] <= 'F')
        },
    decreases b.len(),
{
    reveal_with_fuel(escaped, 2);
    reveal_strlit("\\\"");
    reveal_strlit("\\\\");
    reveal_strlit("\\n");
    reveal_strlit("\\r");
    reveal_strlit("\\t");
    reveal_strlit("\\u");
    lemma_escaped_one('"');
    lemma_escaped_one('\\');
    lemma_escaped_one('\n');
    lemma_escaped_one('\r');
    lemma_escaped_one('\t');
    lemma_escaped_one(c);
    assert(escaped(seq!['"']) =~= "\\\""@);
    assert(escaped(seq!['\\']) =~= "\\\\"@);
    assert(escaped(seq!['\n']) =~= "\\n"@);
    assert(escaped(seq!['\r']) =~= "\\r"@);
    assert(escaped(seq!['\t']) =~= "\\t"@);
    if (c as nat) < 0x20 && c != '\n' && c != '\r' && c != '\t' {
        let e = escaped_char(c);
        let hi = c as nat / 16;
        let lo = c as nat % 16;
        assert(e.take(2) =~= "\\u"@);
        assert(e.skip(2) =~= seq!['0', '0', hex_char(hi), hex_char(lo)]);
        assert(hex_value('0') == Some(0nat));
        assert(hex_value(hex_char(hi)) == Some(hi));
        assert(hex_value(hex_char(lo)) == Some(lo));
    }
    if b.len() == 0 {
        assert(a + b =~= a);
        assert(escaped(a) + escaped(b) =~= escaped(a));
    } else {
        law_escapes(a, b.drop_last(), c);
        assert((a + b).drop_last() =~= a + b.drop_last());
        assert(escaped(a + b) =~= escaped(a) + escaped(b));
    }
}

/// A text of one character.
proof fn lemma_escaped_one(c: char)
    ensures
        escaped(seq![c]) == escaped_char(c),
{
    reveal_with_fuel(escaped, 2);
    assert(seq![c].drop_last() =~= seq![]);
    assert(escaped(seq![c]) =~= escaped_char(c));
}

/// Every number in a record reads back as what was logged: the milliseconds of
/// its time, the whole length of the outage in milliseconds, and the RTT in
/// millionths of a millisecond. A timeout has `null` for an RTT.
pub proof fn law_record_numbers_read_back(
    ts: nat,
    host: Seq<char>,
    nanos: nat,
    rtt: Option<nat>,
    duration_ms: nat,
)
    ensures
        decimal_value(sample_fields(ts, host, rtt)[0].1) == ts,
        decimal_value(outage_start_fields(ts, host)[0].1) == ts,
        decimal_value(outage_end_fields(ts, host, duration_ms)[0].1) == ts,
        decimal_value(outage_end_fields(ts, host, duration_ms)[3].1) == duration_ms,
        all_digits(sample_fields(ts, host, rtt)[0].1),
        all_digits(outage_start_fields(ts, host)[0].1),
        all_digits(outage_end_fields(ts, host, duration_ms)[0].1),
        all_digits(outage_end_fields(ts, host, duration_ms)[3].1),
        fixed_point_value(sample_fields(ts, host, Some(nanos))[2].1, 6) == nanos,
        pow10(6) == 1_000_000,
        sample_fields(ts, host, None)[2].1 == "null"@,
{
    law_decimal_reads_back(ts);
    law_decimal_reads_back(duration_ms);
    lemma_decimal_digits(ts);
    lemma_decimal_digits(duration_ms);
    law_fixed_point_reads_back(nanos, 6);
    reveal_with_fuel(pow10, 7);
}

/// The text of each record, as it stands in the log.
pub proof fn law_record_texts(ts: nat, host: Seq<char>, nanos: nat, duration_ms: nat)
    ensures
        object(sample_fields(ts, host, Some(nanos))) == "{\"ts\":"@ + decimal(ts)
            + ",\"host\":\""@ + escaped(host) + "\",\"rtt_ms\":"@ + fixed_point(nanos, 6) + "}"@,
        object(sample_fields(ts, host, None)) == "{\"ts\":"@ + decimal(ts) + ",\"host\":\""@
            + escaped(host) + "\",\"rtt_ms\":null}"@,
        object(outage_start_fields(ts, host)) == "{\"ts\":"@ + decimal(ts) + ",\"host\":\""@
            + escaped(host) + "\",\"event\":\"outage_start\"}"@,
        object(outage_end_fields(ts, host, duration_ms)) == "{\"ts\":"@ + decimal(ts)
            + ",\"host\":\""@ + escaped(host) + "\",\"event\":\"outage_end\",\"duration_ms\":"@
            + decimal(duration_ms) + "}"@,
{
    lemma_reply_text(ts, host, fixed_point(nanos, 6));
    lemma_timeout_text(ts, host);
    lemma_outage_start_text(ts, host);
    lemma_outage_end_text(ts, host, duration_ms);
}

/// The text of the sample record of a timeout.
proof fn lemma_timeout_text(ts: nat, host: Seq<char>)
    ensures
        object(sample_fields(ts, host, None)) == "{\"ts\":"@ + decimal(ts) + ",\"host\":\""@
            + escaped(host) + "\",\"rtt_ms\":null}"@,
{
    reveal_strlit("null");
    reveal_strlit("}");
    reveal_strlit("\",\"rtt_ms\":");
    reveal_strlit("\",\"rtt_ms\":null}");
    lemma_reply_text(ts, host, "null"@);
    let head = "{\"ts\":"@ + decimal(ts) + ",\"host\":\""@ + escaped(host);
    let tail = "\",\"rtt_ms\":"@ + "null"@ + "}"@;
    assert(tail =~= "\",\"rtt_ms\":null}"@);
    assert(head + "\",\"rtt_ms\":"@ + "null"@ + "}"@ =~= head + tail);
}

/// The text of a record of three fields, up to its third value.
proof fn lemma_third_value(ts: nat, host: Seq<char>, key: Seq<char>, value: Seq<char>)
    ensures
        seq!['{'] + members(seq![("ts"@, decimal(ts)), ("host"@, quoted(host)), (key, value)])
            == "{\"ts\":"@ + decimal(ts) + ",\"host\":\""@ + escaped(host) + (seq!['"', ',', '"']
            + key + seq!['"', ':'] + value),
{
    reveal_strlit("ts");
    reveal_strlit("host");
    reveal_strlit("{\"ts\":");
    reveal_strlit(",\"host\":\"");
    let fields = seq![("ts"@, decimal(ts)), ("host"@, quoted(host)), (key, value)];
    lemma_three_members(fields);
    assert(seq!['{'] + members(fields) =~= "{\"ts\":"@ + decimal(ts) + ",\"host\":\""@ + escaped(
        host,
    ) + (seq!['"', ',', '"'] + key + seq!['"', ':'] + value));
}

/// The text of the record of the start of an outage.
proof fn lemma_outage_start_text(ts: nat, host: Seq<char>)
    ensures
        object(outage_start_fields(ts, host)) == "{\"ts\":"@ + decimal(ts) + ",\"host\":\""@
            + escaped(host) + "\",\"event\":\"outage_start\"}"@,
{
    reveal_strlit("event");
    reveal_strlit("outage_start");
    reveal_strlit("\",\"event\":\"outage_start\"}");
    law_plain_text_is_unchanged("outage_start"@);
    let value = quoted("outage_start"@);
    lemma_third_value(ts, host, "event"@, value);
    let head = "{\"ts\":"@ + decimal(ts) + ",\"host\":\""@ + escaped(host);
    let tail = seq!['"', ',', '"'] + "event"@ + seq!['"', ':'] + value;
    assert(tail + seq!['}'] =~= "\",\"event\":\"outage_start\"}"@);
    assert((head + tail) + seq!['}'] =~= head + (tail + seq!['}']));
}

/// The text of the record of the end of an outage.
proof fn lemma_outage_end_text(ts: nat, host: Seq<char>, duration_ms: nat)
    ensures
        object(outage_end_fields(ts, host, duration_ms)) == "{\"ts\":"@ + decimal(ts)
            + ",\"host\":\""@ + escaped(host) + "\",\"event\":\"outage_end\",\"duration_ms\":"@
            + decimal(duration_ms) + "}"@,
{
    reveal_strlit("event");
    reveal_strlit("outage_end");
    reveal_strlit("duration_ms");
    reveal_strlit("}");
    reveal_strlit("\",\"event\":\"outage_end\",\"duration_ms\":");
    law_plain_text_is_unchanged("outage_end"@);
    let value = quoted("outage_end"@);
    lemma_third_value(ts, host, "event"@, value);
    let fields = outage_end_fields(ts, host, duration_ms);
    let three = fields.drop_last();
    let length = decimal(duration_ms);
    let head = "{\"ts\":"@ + decimal(ts) + ",\"host\":\""@ + escaped(host);
    let tail = seq!['"', ',', '"'] + "event"@ + seq!['"', ':'] + value;
    let key = seq![','] + (seq!['"'] + "duration_ms"@ + seq!['"', ':']);
    assert(three =~= seq![("ts"@, decimal(ts)), ("host"@, quoted(host)), ("event"@, value)]);
    assert(tail + key =~= "\",\"event\":\"outage_end\",\"duration_ms\":"@);
    assert(object(fields) =~= (seq!['{'] + members(three)) + key + length + seq!['}']);
    assert((head + tail) + key + length + seq!['}'] =~= head + (tail + key) + length + "}"@);
}

/// The text of a sample record.
proof fn lemma_reply_text(ts: nat, host: Seq<char>, rtt: Seq<char>)
    ensures
        object(seq![("ts"@, decimal(ts)), ("host"@, quoted(host)), ("rtt_ms"@, rtt)])
            == "{\"ts\":"@ + decimal(ts) + ",\"host\":\""@ + escaped(host) + "\",\"rtt_ms\":"@
            + rtt + "}"@,
{
    reveal_strlit("ts");
    reveal_strlit("host");
    reveal_strlit("rtt_ms");
    reveal_strlit("}");
    reveal_strlit("{\"ts\":");
    reveal_strlit(",\"host\":\"");
    reveal_strlit("\",\"rtt_ms\":");
    let fields = seq![("ts"@, decimal(ts)), ("host"@, quoted(host)), ("rtt_ms"@, rtt)];
    lemma_three_members(fields);
    assert(object(fields) =~= "{\"ts\":"@ + decimal(ts) + ",\"host\":\""@ + escaped(host)
        + "\",\"rtt_ms\":"@ + rtt + "}"@);
}

/// What a host is escaped to reads back as that host, and holds no control
/// character.
pub proof fn law_escape_json_reads_back(s: &str, out: String, rest: Seq<char>)
    requires
        call_ensures(escape_json, (s,), out),
    ensures
        read_string(out@ + seq!['"'] + rest) == Some((s@, rest)),
        printable(out@),
{
    law_escaped_reads_back(s@, rest);
    law_escaped_is_printable(s@);
}

/// Each call adds one line to the log, and nothing else: the sample, the start
/// of an outage or its end, with the milliseconds since the epoch in which it
/// falls. The RTT and the length of the outage are those that were given, the
/// latter in whole milliseconds.
pub proof fn law_logged_lines(
    a: &mut Recorder,
    b: &mut Recorder,
    c: &mut Recorder,
    host: &str,
    t: SystemTime,
    ts: nat,
    rtt: Duration,
    duration: Duration,
    duration_ms: nat,
    r: (),
)
    requires
        ts * 1_000_000 <= t@ < (ts + 1) * 1_000_000,
        duration_ms * 1_000_000 <= duration@ < (duration_ms + 1) * 1_000_000,
        call_ensures(Recorder::log_sample, (a, t, host, Some(rtt)), r),
        call_ensures(Recorder::log_outage_start, (b, host, t), r),
        call_ensures(Recorder::log_outage_end, (c, host, t, duration), r),
    ensures
        final(a)@ == old(a)@ + ("{\"ts\":"@ + decimal(ts) + ",\"host\":\""@ + escaped(host@)
            + "\",\"rtt_ms\":"@ + fixed_point(rtt@, 6) + "}"@) + seq!['\n'],
        final(b)@ == old(b)@ + ("{\"ts\":"@ + decimal(ts) + ",\"host\":\""@ + escaped(host@)
            + "\",\"event\":\"outage_start\"}"@) + seq!['\n'],
        final(c)@ == old(c)@ + ("{\"ts\":"@ + decimal(ts) + ",\"host\":\""@ + escaped(host@)
            + "\",\"event\":\"outage_end\",\"duration_ms\":"@ + decimal(duration_ms) + "}"@)
            + seq!['\n'],
{
    assert(epoch_millis(t@) == ts);
    assert(duration@ / (NANOS_PER_MILLI as nat) == duration_ms);
    law_record_texts(ts, host@, rtt@, duration_ms);
}

/// A timeout is logged with `null` in place of an RTT. What was logged is handed
/// over whole, once.
pub proof fn law_timeouts_and_handing_over(
    a: &mut Recorder,
    host: &str,
    t: SystemTime,
    ts: nat,
    r: (),
    b: &mut Recorder,
    text: String,
)
    requires
        ts * 1_000_000 <= t@ < (ts + 1) * 1_000_000,
        call_ensures(Recorder::log_sample, (a, t, host, None), r),
        call_ensures(Recorder::take, (b,), text),
    ensures
        final(a)@ == old(a)@ + ("{\"ts\":"@ + decimal(ts) + ",\"host\":\""@ + escaped(host@)
            + "\",\"rtt_ms\":null}"@) + seq!['\n'],
        text@ == old(b)@,
        final(b)@.len() == 0,
{
    assert(epoch_millis(t@) == ts);
    law_record_texts(ts, host@, 0, 0);
}

} // verus!
