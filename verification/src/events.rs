//! Provenance events rendered as JSON, one self-contained object per
//! line: a `ts` timestamp, a discriminating `event` tag, and the event's
//! fields.  String values are escaped here, so the line is well-formed
//! JSON whatever the names and messages contain.

use vstd::prelude::*;

use crate::strutil::{dec_str, hex_digit, push_dec_u64, str_to_string};
use crate::types::ProvenanceEvent;

verus! {

/// The escape of one character inside a JSON string literal.
pub open spec fn json_escape_char(c: char) -> Seq<char> {
    if c == '"' {
        seq!['\\', '"']
    } else if c == '\\' {
        seq!['\\', '\\']
    } else if c == '\n' {
        seq!['\\', 'n']
    } else if c == '\r' {
        seq!['\\', 'r']
    } else if c == '\t' {
        seq!['\\', 't']
    } else if (c as u32) < 0x20 {
        seq!['\\', 'u', '0', '0', hex_digit(((c as u32) / 16) as nat), hex_digit(
            ((c as u32) % 16) as nat,
        )]
    } else {
        seq![c]
    }
}

/// A string escaped for use inside a JSON string literal.
pub open spec fn json_escape(s: Seq<char>) -> Seq<char>
    decreases s.len(),
{
    if s.len() == 0 {
        Seq::empty()
    } else {
        json_escape(s.drop_last()) + json_escape_char(s.last())
    }
}

fn push_escaped_char(out: &mut String, c: char)
    ensures
        final(out)@ == old(out)@ + json_escape_char(c),
{
    proof {
        reveal_strlit("\\\"");
        reveal_strlit("\\\\");
        reveal_strlit("\\n");
        reveal_strlit("\\r");
        reveal_strlit("\\t");
        reveal_strlit("\\u00");
    }
    if c == '"' {
        out.append("\\\"");
    } else if c == '\\' {
        out.append("\\\\");
    } else if c == '\n' {
        out.append("\\n");
    } else if c == '\r' {
        out.append("\\r");
    } else if c == '\t' {
        out.append("\\t");
    } else if (c as u32) < 0x20 {
        out.append("\\u00");
        let hi: u64 = ((c as u32) / 16) as u64;
        let lo: u64 = ((c as u32) % 16) as u64;
        out.push(hex_char(hi));
        out.push(hex_char(lo));
    } else {
        out.push(c);
    }
    proof {
        assert(out@ =~= old(out)@ + json_escape_char(c));
    }
}

fn hex_char(d: u64) -> (c: char)
    requires
        d < 16,
    ensures
        c == hex_digit(d as nat),
{
    if d == 0 {
        '0'
    } else if d == 1 {
        '1'
    } else if d == 2 {
        '2'
    } else if d == 3 {
        '3'
    } else if d == 4 {
        '4'
    } else if d == 5 {
        '5'
    } else if d == 6 {
        '6'
    } else if d == 7 {
        '7'
    } else if d == 8 {
        '8'
    } else if d == 9 {
        '9'
    } else if d == 10 {
        'a'
    } else if d == 11 {
        'b'
    } else if d == 12 {
        'c'
    } else if d == 13 {
        'd'
    } else if d == 14 {
        'e'
    } else {
        'f'
    }
}

/// Append `s` escaped for a JSON string literal.
pub fn push_json_escaped(out: &mut String, s: &str)
    ensures
        final(out)@ == old(out)@ + json_escape(s@),
{
    let ghost base = out@;
    let n = s.unicode_len();
    let mut i: usize = 0;
    while i < n
        invariant
            n == s@.len(),
            i <= n,
            out@ == base + json_escape(s@.take(i as int)),
        decreases n - i,
    {
        push_escaped_char(out, s.get_char(i));
        proof {
            assert(s@.take(i + 1).drop_last() =~= s@.take(i as int));
            assert(s@.take(i + 1).last() == s@[i as int]);
        }
        i += 1;
    }
    proof {
        assert(s@.take(n as int) =~= s@);
    }
}

/// A string field: `,"key":"value"` with the value escaped.
pub open spec fn jfield(key: Seq<char>, val: Seq<char>) -> Seq<char> {
    ",\""@ + key + "\":\""@ + json_escape(val) + "\""@
}

/// A numeric field: `,"key":` followed by the decimal number.
pub open spec fn jnum(key: Seq<char>, n: nat) -> Seq<char> {
    ",\""@ + key + "\":"@ + dec_str(n)
}

/// A duration field in seconds with millisecond precision.
pub open spec fn jmillis(key: Seq<char>, millis: nat) -> Seq<char> {
    ",\""@ + key + "\":"@ + dec_str(millis / 1000) + seq![
        '.',
        crate::strutil::dec_digit((millis % 1000) / 100),
        crate::strutil::dec_digit((millis % 100) / 10),
        crate::strutil::dec_digit(millis % 10),
    ]
}

fn push_jfield(out: &mut String, key: &str, val: &str)
    ensures
        final(out)@ == old(out)@ + jfield(key@, val@),
{
    out.append(",\"");
    out.append(key);
    out.append("\":\"");
    push_json_escaped(out, val);
    out.append("\"");
    proof {
        assert(out@ =~= old(out)@ + jfield(key@, val@));
    }
}

fn push_jnum(out: &mut String, key: &str, n: u64)
    ensures
        final(out)@ == old(out)@ + jnum(key@, n as nat),
{
    out.append(",\"");
    out.append(key);
    out.append("\":");
    push_dec_u64(out, n);
    proof {
        assert(out@ =~= old(out)@ + jnum(key@, n as nat));
    }
}

fn push_jmillis(out: &mut String, key: &str, millis: u64)
    ensures
        final(out)@ == old(out)@ + jmillis(key@, millis as nat),
{
    out.append(",\"");
    out.append(key);
    out.append("\":");
    push_dec_u64(out, millis / 1000);
    out.push('.');
    let m = millis % 1000;
    out.push(crate::strutil::dec_char(m / 100));
    out.push(crate::strutil::dec_char((m % 100) / 10));
    out.push(crate::strutil::dec_char(m % 10));
    proof {
        assert(out@ =~= old(out)@ + jmillis(key@, millis as nat));
    }
}

/// The opening of every event line: the timestamp and the tag.
pub open spec fn jopen(ts: Seq<char>, tag: Seq<char>) -> Seq<char> {
    "{\"ts\":\""@ + json_escape(ts) + "\",\"event\":\""@ + tag + "\""@
}

/// The JSON object for a timestamped event, as one line (no newline).
pub open spec fn event_json_spec(ts: Seq<char>, ev: ProvenanceEvent) -> Seq<char> {
    (match ev {
        ProvenanceEvent::ApplyStarted { machine, run_id, forjar_version } => jopen(
            ts,
            "apply_started"@,
        ) + jfield("machine"@, machine@) + jfield("run_id"@, run_id@) + jfield(
            "forjar_version"@,
            forjar_version@,
        ),
        ProvenanceEvent::ResourceStarted { machine, resource, action } => jopen(
            ts,
            "resource_started"@,
        ) + jfield("machine"@, machine@) + jfield("resource"@, resource@) + jfield(
            "action"@,
            action@,
        ),
        ProvenanceEvent::ResourceConverged { machine, resource, duration_millis, hash } => jopen(
            ts,
            "resource_converged"@,
        ) + jfield("machine"@, machine@) + jfield("resource"@, resource@) + jmillis(
            "duration_seconds"@,
            duration_millis as nat,
        ) + jfield("hash"@, hash@),
        ProvenanceEvent::ResourceFailed { machine, resource, error } => jopen(
            ts,
            "resource_failed"@,
        ) + jfield("machine"@, machine@) + jfield("resource"@, resource@) + jfield(
            "error"@,
            error@,
        ),
        ProvenanceEvent::ApplyCompleted {
            machine,
            run_id,
            resources_converged,
            resources_unchanged,
            resources_failed,
            total_millis,
        } => jopen(ts, "apply_completed"@) + jfield("machine"@, machine@) + jfield(
            "run_id"@,
            run_id@,
        ) + jnum("resources_converged"@, resources_converged as nat) + jnum(
            "resources_unchanged"@,
            resources_unchanged as nat,
        ) + jnum("resources_failed"@, resources_failed as nat) + jmillis(
            "total_seconds"@,
            total_millis as nat,
        ),
        ProvenanceEvent::DriftDetected { machine, resource, expected_hash, actual_hash } => jopen(
            ts,
            "drift_detected"@,
        ) + jfield("machine"@, machine@) + jfield("resource"@, resource@) + jfield(
            "expected_hash"@,
            expected_hash@,
        ) + jfield("actual_hash"@, actual_hash@),
    }) + "}"@
}

/// Render one event as its JSON log line.
pub fn event_json(ts: &str, event: &ProvenanceEvent) -> (r: String)
    ensures
        r@ == event_json_spec(ts@, *event),
{
    let mut out = str_to_string("{\"ts\":\"");
    push_json_escaped(&mut out, ts);
    out.append("\",\"event\":\"");
    match event {
        ProvenanceEvent::ApplyStarted { machine, run_id, forjar_version } => {
            out.append("apply_started");
            out.append("\"");
            push_jfield(&mut out, "machine", machine.as_str());
            push_jfield(&mut out, "run_id", run_id.as_str());
            push_jfield(&mut out, "forjar_version", forjar_version.as_str());
        },
        ProvenanceEvent::ResourceStarted { machine, resource, action } => {
            out.append("resource_started");
            out.append("\"");
            push_jfield(&mut out, "machine", machine.as_str());
            push_jfield(&mut out, "resource", resource.as_str());
            push_jfield(&mut out, "action", action.as_str());
        },
        ProvenanceEvent::ResourceConverged { machine, resource, duration_millis, hash } => {
            out.append("resource_converged");
            out.append("\"");
            push_jfield(&mut out, "machine", machine.as_str());
            push_jfield(&mut out, "resource", resource.as_str());
            push_jmillis(&mut out, "duration_seconds", *duration_millis);
            push_jfield(&mut out, "hash", hash.as_str());
        },
        ProvenanceEvent::ResourceFailed { machine, resource, error } => {
            out.append("resource_failed");
            out.append("\"");
            push_jfield(&mut out, "machine", machine.as_str());
            push_jfield(&mut out, "resource", resource.as_str());
            push_jfield(&mut out, "error", error.as_str());
        },
        ProvenanceEvent::ApplyCompleted {
            machine,
            run_id,
            resources_converged,
            resources_unchanged,
            resources_failed,
            total_millis,
        } => {
            out.append("apply_completed");
            out.append("\"");
            push_jfield(&mut out, "machine", machine.as_str());
            push_jfield(&mut out, "run_id", run_id.as_str());
            push_jnum(&mut out, "resources_converged", *resources_converged as u64);
            push_jnum(&mut out, "resources_unchanged", *resources_unchanged as u64);
            push_jnum(&mut out, "resources_failed", *resources_failed as u64);
            push_jmillis(&mut out, "total_seconds", *total_millis);
        },
        ProvenanceEvent::DriftDetected { machine, resource, expected_hash, actual_hash } => {
            out.append("drift_detected");
            out.append("\"");
            push_jfield(&mut out, "machine", machine.as_str());
            push_jfield(&mut out, "resource", resource.as_str());
            push_jfield(&mut out, "expected_hash", expected_hash.as_str());
            push_jfield(&mut out, "actual_hash", actual_hash.as_str());
        },
    }
    out.append("}");
    proof {
        assert(out@ =~= event_json_spec(ts@, *event));
    }
    out
}

} // verus!
