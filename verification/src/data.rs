//! The raw input shape: a forest of attributed, time-ranged audit events with
//! nested sub-operations, the labeling rule that turns an event into a display
//! label, and the recursive extraction of the global time range.

use vstd::prelude::*;

verus! {

use vstd::math::max;
use vstd::math::min;
use vstd::string::StringExecFns;
use crate::text::dec_digits;
use crate::text::escape_append;
use crate::text::escaped;
use crate::text::has_prefix;
use crate::text::starts_with;
use crate::text::str_eq;
use crate::text::u64_string;

/// A loosely typed attribute value of an audit event: a string, an unsigned
/// number, or a boolean; any other input shape is treated as absent.
pub enum AttrValue {
    Text(String),
    Unsigned(u64),
    Truth(bool),
}

/// One recorded cryptographic operation: an originating context, a provenance
/// tag, a time range, free-form attributes, and nested sub-operations.
pub struct AuditEvent {
    pub context: String,
    pub origin: String,
    pub start: u64,
    pub end: u64,
    pub events: Vec<(String, AttrValue)>,
    pub spans: Vec<AuditEvent>,
}

/// The value under `key` at or after position `i`, first match wins.
pub open spec fn attr_at(attrs: Seq<(String, AttrValue)>, key: Seq<char>, i: int) -> Option<
    AttrValue,
>
    decreases attrs.len() - i,
{
    if i < 0 || i >= attrs.len() {
        None
    } else if attrs[i].0@ == key {
        Some(attrs[i].1)
    } else {
        attr_at(attrs, key, i + 1)
    }
}

/// The attribute value of an event under `key`, if present.
pub open spec fn attr_of(e: AuditEvent, key: Seq<char>) -> Option<AttrValue> {
    attr_at(e.events@, key, 0)
}

/// The declared operation name of an event: its `name` attribute when that is
/// a string, `unknown` otherwise.
pub open spec fn event_name(e: AuditEvent) -> Seq<char> {
    match attr_of(e, "name"@) {
        Some(AttrValue::Text(s)) => s@,
        _ => "unknown"@,
    }
}

/// The text standing for an attribute value inside a label: numbers in
/// decimal, booleans as words, strings quoted with their characters escaped.
pub open spec fn rendered(v: AttrValue) -> Seq<char> {
    match v {
        AttrValue::Text(s) => seq!['"'] + escaped(s@) + seq!['"'],
        AttrValue::Unsigned(n) => dec_digits(n as int),
        AttrValue::Truth(b) => if b {
            "true"@
        } else {
            "false"@
        },
    }
}

/// The displayed protocol version.
pub open spec fn version_text(v: u64) -> Seq<char> {
    if v == 772 {
        "TLS 1.3"@
    } else if v == 771 {
        "TLS 1.2"@
    } else {
        "version "@ + dec_digits(v as int)
    }
}

/// The displayed signature algorithm.
pub open spec fn signature_text(s: u64) -> Seq<char> {
    if s == 1027 {
        "ecdsa_secp256r1_sha256"@
    } else if s == 2052 {
        "rsa_pss_rsae_sha256"@
    } else {
        "unknown"@
    }
}

/// The displayed key-exchange group.
pub open spec fn group_text(g: u64) -> Seq<char> {
    if g == 23 {
        "secp256r1"@
    } else if g == 4588 {
        "X25519MLKEM768"@
    } else {
        "unknown"@
    }
}

/// The decoded detail texts of an event, in display order, per the labeling
/// rule: handshake events show protocol version and cipher suite, signing
/// events the signature algorithm, key exchanges the group, public-key
/// events the algorithm and bit length; all other events show none.
pub open spec fn details_of(e: AuditEvent) -> Seq<Seq<char>> {
    let name = event_name(e);
    if has_prefix(name, "tls::handshake_"@) {
        let d1: Seq<Seq<char>> = match attr_of(e, "tls::protocol_version"@) {
            Some(AttrValue::Unsigned(v)) => seq![version_text(v)],
            _ => seq![],
        };
        let d2: Seq<Seq<char>> = match attr_of(e, "tls::ciphersuite"@) {
            Some(v) => seq!["ciphersuite "@ + rendered(v)],
            None => seq![],
        };
        d1 + d2
    } else if name == "tls::sign"@ || name == "tls::verify"@ {
        match attr_of(e, "tls::signature_algorithm"@) {
            Some(AttrValue::Unsigned(s)) => seq![signature_text(s)],
            _ => seq![],
        }
    } else if name == "tls::key_exchange"@ {
        match attr_of(e, "tls::group"@) {
            Some(AttrValue::Unsigned(g)) => seq![group_text(g)],
            _ => seq![],
        }
    } else if has_prefix(name, "pk::"@) {
        let d1: Seq<Seq<char>> = match attr_of(e, "pk::algorithm"@) {
            Some(AttrValue::Text(a)) => seq![a@],
            _ => seq![],
        };
        let d2: Seq<Seq<char>> = match attr_of(e, "pk::bits"@) {
            Some(v) => seq![rendered(v) + " bits"@],
            None => seq![],
        };
        d1 + d2
    } else {
        seq![]
    }
}

/// The first `i` detail texts joined with a comma and a space.
pub open spec fn joined_upto(ds: Seq<Seq<char>>, i: int) -> Seq<char>
    decreases i,
{
    if i <= 0 || i > ds.len() {
        Seq::empty()
    } else if i == 1 {
        ds[0]
    } else {
        joined_upto(ds, i - 1) + ", "@ + ds[i - 1]
    }
}

/// The display label of an event: its name, followed by its decoded details
/// in brackets when there are any.
pub open spec fn label_of(e: AuditEvent) -> Seq<char> {
    let name = event_name(e);
    let ds = details_of(e);
    if ds.len() == 0 {
        name
    } else {
        name + " ["@ + joined_upto(ds, ds.len() as int) + "]"@
    }
}

impl AuditEvent {
    /// Looks up an attribute by key, first match wins.
    pub fn get_attr(&self, key: &str) -> (r: Option<&AttrValue>)
        ensures
            match r {
                Some(v) => attr_of(*self, key@) == Some(*v),
                None => attr_of(*self, key@) is None,
            },
    {
        let n: usize = self.events.len();
        let mut i: usize = 0;
        while i < n
            invariant
                n == self.events@.len(),
                i <= n,
                attr_at(self.events@, key@, 0) == attr_at(self.events@, key@, i as int),
            decreases n - i,
        {
            if str_eq(self.events[i].0.as_str(), key) {
                return Some(&self.events[i].1);
            }
            i = i + 1;
        }
        None
    }

    /// The declared operation name, `unknown` when absent or not a string.
    pub fn name(&self) -> (r: String)
        ensures
            r@ == event_name(*self),
    {
        match self.get_attr("name") {
            Some(AttrValue::Text(s)) => s.clone(),
            _ => "unknown".to_owned(),
        }
    }

    /// The display label: the operation name plus the decoded details of the
    /// labeling rule.
    pub fn format_details(&self) -> (r: String)
        ensures
            r@ == label_of(*self),
    {
        let name: String = self.name();
        let mut details: Vec<String> = Vec::new();
        if starts_with(name.as_str(), "tls::handshake_") {
            match self.get_attr("tls::protocol_version") {
                Some(AttrValue::Unsigned(v)) => {
                    details.push(version_string(*v));
                },
                _ => {},
            }
            match self.get_attr("tls::ciphersuite") {
                Some(v) => {
                    let mut d: String = "ciphersuite ".to_owned();
                    render_append(&mut d, v);
                    details.push(d);
                },
                None => {},
            }
        } else if str_eq(name.as_str(), "tls::sign") || str_eq(name.as_str(), "tls::verify") {
            match self.get_attr("tls::signature_algorithm") {
                Some(AttrValue::Unsigned(s)) => {
                    details.push(signature_string(*s));
                },
                _ => {},
            }
        } else if str_eq(name.as_str(), "tls::key_exchange") {
            match self.get_attr("tls::group") {
                Some(AttrValue::Unsigned(g)) => {
                    details.push(group_string(*g));
                },
                _ => {},
            }
        } else if starts_with(name.as_str(), "pk::") {
            match self.get_attr("pk::algorithm") {
                Some(AttrValue::Text(a)) => {
                    details.push(a.clone());
                },
                _ => {},
            }
            match self.get_attr("pk::bits") {
                Some(v) => {
                    let mut d: String = String::new();
                    render_append(&mut d, v);
                    d.append(" bits");
                    details.push(d);
                },
                None => {},
            }
        }
        proof {
            assert(details@.map_values(|s: String| s@) =~= details_of(*self));
        }
        if details.len() == 0 {
            name
        } else {
            let n: usize = details.len();
            let mut r: String = name;
            r.append(" [");
            let mut i: usize = 0;
            while i < n
                invariant
                    n == details@.len(),
                    i <= n,
                    details@.map_values(|s: String| s@) =~= details_of(*self),
                    r@ == event_name(*self) + " ["@ + joined_upto(
                        details_of(*self),
                        i as int,
                    ),
                decreases n - i,
            {
                if i > 0 {
                    r.append(", ");
                }
                r.append(details[i].as_str());
                proof {
                    assert(details_of(*self)[i as int] == details@.map_values(|s: String| s@)[
                        i as int]);
                }
                i = i + 1;
            }
            r.append("]");
            r
        }
    }
}

/// Renders a protocol version for display.
pub fn version_string(v: u64) -> (r: String)
    ensures
        r@ == version_text(v),
{
    if v == 772 {
        "TLS 1.3".to_owned()
    } else if v == 771 {
        "TLS 1.2".to_owned()
    } else {
        let mut r: String = "version ".to_owned();
        let d: String = u64_string(v);
        r.append(d.as_str());
        r
    }
}

/// Renders a signature algorithm for display.
pub fn signature_string(s: u64) -> (r: String)
    ensures
        r@ == signature_text(s),
{
    if s == 1027 {
        "ecdsa_secp256r1_sha256".to_owned()
    } else if s == 2052 {
        "rsa_pss_rsae_sha256".to_owned()
    } else {
        "unknown".to_owned()
    }
}

/// Renders a key-exchange group for display.
pub fn group_string(g: u64) -> (r: String)
    ensures
        r@ == group_text(g),
{
    if g == 23 {
        "secp256r1".to_owned()
    } else if g == 4588 {
        "X25519MLKEM768".to_owned()
    } else {
        "unknown".to_owned()
    }
}

/// Appends the display text of an attribute value to `out`.
pub fn render_append(out: &mut String, v: &AttrValue)
    ensures
        final(out)@ == old(out)@ + rendered(*v),
{
    match v {
        AttrValue::Text(s) => {
            proof {
                reveal_strlit("\"");
            }
            out.append("\"");
            escape_append(out, s.as_str());
            out.append("\"");
            proof {
                assert("\""@ =~= seq!['"']);
                assert(out@ =~= old(out)@ + rendered(*v));
            }
        },
        AttrValue::Unsigned(n) => {
            let d: String = u64_string(*n);
            out.append(d.as_str());
        },
        AttrValue::Truth(b) => {
            if *b {
                out.append("true");
            } else {
                out.append("false");
            }
        },
    }
}

/// The least `start` in an event and all its nested spans.
pub open spec fn event_min_start(e: AuditEvent) -> int
    decreases e, 1int,
{
    min(e.start as int, spans_min_start(e.spans@, 0))
}

/// The least `start` over the events of `s` at or after position `i`,
/// `u64::MAX` when there are none.
pub open spec fn spans_min_start(s: Seq<AuditEvent>, i: int) -> int
    decreases s, s.len() - i, 0int,
{
    if i < 0 || i >= s.len() {
        u64::MAX as int
    } else {
        min(event_min_start(s[i]), spans_min_start(s, i + 1))
    }
}

/// The greatest `end` in an event and all its nested spans.
pub open spec fn event_max_end(e: AuditEvent) -> int
    decreases e, 1int,
{
    max(e.end as int, spans_max_end(e.spans@, 0))
}

/// The greatest `end` over the events of `s` at or after position `i`,
/// 0 when there are none.
pub open spec fn spans_max_end(s: Seq<AuditEvent>, i: int) -> int
    decreases s, s.len() - i, 0int,
{
    if i < 0 || i >= s.len() {
        0
    } else {
        max(event_max_end(s[i]), spans_max_end(s, i + 1))
    }
}

proof fn lemma_event_range_bounds(e: AuditEvent)
    ensures
        0 <= event_min_start(e) <= u64::MAX,
        0 <= event_max_end(e) <= u64::MAX,
    decreases e, 1int,
{
    lemma_spans_range_bounds(e.spans@, 0);
}

proof fn lemma_spans_range_bounds(s: Seq<AuditEvent>, i: int)
    ensures
        0 <= spans_min_start(s, i) <= u64::MAX,
        0 <= spans_max_end(s, i) <= u64::MAX,
    decreases s, s.len() - i, 0int,
{
    if 0 <= i < s.len() {
        lemma_event_range_bounds(s[i]);
        lemma_spans_range_bounds(s, i + 1);
    }
}

/// Folds one event and all its nested spans into the running minimum start
/// and maximum end.
fn update_range(event: &AuditEvent, min_start: &mut u64, max_end: &mut u64)
    ensures
        *final(min_start) as int == min(*old(min_start) as int, event_min_start(*event)),
        *final(max_end) as int == max(*old(max_end) as int, event_max_end(*event)),
    decreases *event,
{
    if event.start < *min_start {
        *min_start = event.start;
    }
    if event.end > *max_end {
        *max_end = event.end;
    }
    let n: usize = event.spans.len();
    let mut i: usize = 0;
    while i < n
        invariant
            n == event.spans@.len(),
            i <= n,
            min(*min_start as int, spans_min_start(event.spans@, i as int)) == min(
                min(*old(min_start) as int, event.start as int),
                spans_min_start(event.spans@, 0),
            ),
            max(*max_end as int, spans_max_end(event.spans@, i as int)) == max(
                max(*old(max_end) as int, event.end as int),
                spans_max_end(event.spans@, 0),
            ),
        decreases n - i,
    {
        proof {
            assert(decreases_to!(*event => event.spans@[i as int]));
        }
        update_range(&event.spans[i], min_start, max_end);
        i = i + 1;
    }
}

impl AuditEvent {
    /// The global minimum start and maximum end over every event and every
    /// nested span: present exactly when the input is non-empty.
    pub fn get_time_range(events: &Vec<AuditEvent>) -> (r: Option<(u64, u64)>)
        ensures
            match r {
                Some(range) => events@.len() > 0 && range.0 as int == spans_min_start(events@, 0)
                    && range.1 as int == spans_max_end(events@, 0),
                None => events@.len() == 0,
            },
    {
        if events.len() == 0 {
            return None;
        }
        let mut min_start: u64 = u64::MAX;
        let mut max_end: u64 = u64::MIN;
        proof {
            lemma_spans_range_bounds(events@, 0);
        }
        let n: usize = events.len();
        let mut i: usize = 0;
        while i < n
            invariant
                n == events@.len(),
                i <= n,
                min(min_start as int, spans_min_start(events@, i as int)) == spans_min_start(
                    events@,
                    0,
                ),
                max(max_end as int, spans_max_end(events@, i as int)) == spans_max_end(events@, 0),
            decreases n - i,
        {
            update_range(&events[i], &mut min_start, &mut max_end);
            i = i + 1;
        }
        Some((min_start, max_end))
    }
}

} // verus!
