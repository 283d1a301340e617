//! What is handed to the broker: a topic, a payload and how to deliver them.

use vstd::prelude::*;
use crate::topic::{name, named};

verus! {

/// The delivery guarantee of a publication.
#[derive(Clone, Copy, Debug, PartialEq, Eq, Structural)]
pub enum Qos {
    AtMostOnce,
    AtLeastOnce,
    ExactlyOnce,
}

/// One message for the broker.
#[derive(Clone, Debug, PartialEq, Eq)]
pub struct Publication {
    pub topic: String,
    pub payload: String,
    pub qos: Qos,
    pub retain: bool,
}

/// A publication as contracts speak of it.
pub struct PublicationView {
    pub topic: Seq<char>,
    pub payload: Seq<char>,
    pub qos: Qos,
    pub retain: bool,
}

impl View for Publication {
    type V = PublicationView;

    open spec fn view(&self) -> PublicationView {
        PublicationView {
            topic: self.topic@,
            payload: self.payload@,
            qos: self.qos,
            retain: self.retain,
        }
    }
}

/// The views of the publications in `list`, in order.
pub open spec fn views(list: Seq<Publication>) -> Seq<PublicationView> {
    list.map_values(|p: Publication| p@)
}

/// The reading `payload` for `metric_path` under `host`, delivered at least once.
pub open spec fn reading(
    host: Seq<char>,
    metric_path: Seq<char>,
    payload: Seq<char>,
    retain: bool,
) -> PublicationView {
    PublicationView { topic: named(host, metric_path), payload, qos: Qos::AtLeastOnce, retain }
}

/// Appends to `out` the reading `payload` for `metric_path` under `host`.
pub fn push_reading(
    out: &mut Vec<Publication>,
    host: &str,
    metric_path: &str,
    payload: String,
    retain: bool,
)
    ensures
        views(final(out)@) == views(old(out)@).push(
            reading(host@, metric_path@, payload@, retain),
        ),
{
    let topic = name(host, metric_path);
    out.push(Publication { topic, payload, qos: Qos::AtLeastOnce, retain });
    assert(views(out@) =~= views(old(out)@).push(reading(host@, metric_path@, payload@, retain)));
}

/// Whether `holds` is true of every publication in `plan`.
pub open spec fn every(
    plan: Seq<PublicationView>,
    holds: spec_fn(PublicationView) -> bool,
) -> bool {
    forall|i: int| 0 <= i < plan.len() ==> holds(#[trigger] plan[i])
}

/// What is true of every publication in two plans is true of every one in both together.
pub proof fn lemma_every_joined(
    first: Seq<PublicationView>,
    second: Seq<PublicationView>,
    holds: spec_fn(PublicationView) -> bool,
)
    requires
        every(first, holds),
        every(second, holds),
    ensures
        every(first + second, holds),
{
    let both = first + second;
    assert forall|i: int| 0 <= i < both.len() implies holds(#[trigger] both[i]) by {
        if i < first.len() {
            assert(both[i] == first[i]);
        } else {
            assert(both[i] == second[i - first.len()]);
        }
    }
}

/// Different metric paths under one host make different topics.
pub proof fn lemma_named_apart(host: Seq<char>, first: Seq<char>, second: Seq<char>)
    requires
        first != second,
    ensures
        named(host, first) != named(host, second),
{
    assert(named(host, first).skip(host.len() as int + 1) =~= first);
    assert(named(host, second).skip(host.len() as int + 1) =~= second);
}

} // verus!
