//! Topic names: `<host>/<metric path>`, and the cleaning of labels that become part of one.

use vstd::prelude::*;
use crate::text::{
    ascii_alphanumeric, chars_of, is_ascii_alphanumeric, lemma_trimmed_fixed, trim, trimmed,
    whitespace,
};

verus! {

/// The topic of `metric_path` under `host`.
pub open spec fn named(host: Seq<char>, metric_path: Seq<char>) -> Seq<char> {
    host + seq!['/'] + metric_path
}

/// `c` where it is an ASCII letter or digit, a dash in place of anything else.
pub open spec fn dashed(c: char) -> char {
    if ascii_alphanumeric(c) {
        c
    } else {
        '-'
    }
}

/// `label` trimmed of surrounding whitespace, then with a dash in place of every
/// character that is no ASCII letter or digit.
pub open spec fn sanitized(label: Seq<char>) -> Seq<char> {
    trimmed(label).map_values(|c: char| dashed(c))
}

/// Whether every character of `s` is an ASCII letter, an ASCII digit or a dash.
pub open spec fn topic_safe(s: Seq<char>) -> bool {
    forall|i: int| 0 <= i < s.len() ==> ascii_alphanumeric(#[trigger] s[i]) || s[i] == '-'
}

/// The topic `<host>/<metric_path>`.
pub fn name(host: &str, metric_path: &str) -> (topic: String)
    ensures
        topic@ == named(host@, metric_path@),
{
    let mut topic = host.to_owned();
    topic.push('/');
    topic.append(metric_path);
    topic
}

/// Makes a label fit for a topic segment: surrounding whitespace goes, and every
/// character left that is no ASCII letter or digit becomes a dash.
pub fn sanitize(label: &str) -> (out: String)
    ensures
        out@ == sanitized(label@),
        topic_safe(out@),
{
    let kept = trim(label);
    let chars = chars_of(kept.as_str());
    let mut out = String::new();
    let mut i: usize = 0;
    while i < chars.len()
        invariant
            i <= chars.len(),
            out@ == chars@.take(i as int).map_values(|c: char| dashed(c)),
        decreases chars.len() - i,
    {
        let c = chars[i];
        if is_ascii_alphanumeric(c) {
            out.push(c);
        } else {
            out.push('-');
        }
        assert(chars@.take(i + 1).map_values(|c: char| dashed(c)) == chars@.take(
            i as int,
        ).map_values(|c: char| dashed(c)).push(dashed(c)));
        i = i + 1;
    }
    proof {
        assert(chars@.take(chars.len() as int) == chars@);
        lemma_sanitized(label@);
    }
    out
}

/// A sanitized label holds only ASCII letters, digits and dashes, so it neither starts
/// nor ends with whitespace, and sanitizing it again gives the same label.
pub proof fn lemma_sanitized(label: Seq<char>)
    ensures
        topic_safe(sanitized(label)),
        forall|i: int|
            0 <= i < sanitized(label).len() ==> !whitespace(#[trigger] sanitized(label)[i]),
        sanitized(sanitized(label)) == sanitized(label),
{
    let once = sanitized(label);
    assert forall|i: int| 0 <= i < once.len() implies (ascii_alphanumeric(#[trigger] once[i])
        || once[i] == '-') && !whitespace(once[i]) by {
        assert(once[i] == dashed(trimmed(label)[i]));
    }
    lemma_trimmed_fixed(once);
    assert(once.map_values(|c: char| dashed(c)) =~= once);
}

} // verus!
