//! The live figures of a host, and what is published of them on every tick.
//!
//! Figures that the platform gives as floating-point numbers come here as their
//! decimal text.

use vstd::prelude::*;
use crate::publication::{
    every, lemma_every_joined, lemma_named_apart, push_reading, reading, views, Publication,
    PublicationView, Qos,
};
use crate::mqtt::{presence_of, SessionConfig};
use crate::text::{decimal, decimal_string};
use crate::topic::{named, sanitize, sanitized};
use crate::uptime::{format_uptime, uptime_text};

verus! {

/// Seconds from one tick to the next.
pub const TICK_SECS: u64 = 60;

/// The load averages over one, five and fifteen minutes.
#[derive(Clone, Debug, PartialEq, Eq)]
pub struct LoadAverage {
    pub one: String,
    pub five: String,
    pub fifteen: String,
}

/// A component with a temperature sensor: its label and, if the sensor gave one, its
/// reading in degrees Celsius.
#[derive(Clone, Debug, PartialEq, Eq)]
pub struct Component {
    pub label: String,
    pub temperature: Option<String>,
}

/// What a battery is doing.
#[derive(Clone, Copy, Debug, PartialEq, Eq, Structural)]
pub enum BatteryState {
    Unknown,
    Charging,
    Discharging,
    Empty,
    Full,
    Paused,
}

/// One battery: its charge and its health as fractions, and how often it has been
/// cycled, if it says.
#[derive(Clone, Debug, PartialEq, Eq)]
pub struct Battery {
    pub charge: String,
    pub state: BatteryState,
    pub health: String,
    pub cycle_count: Option<u32>,
}

/// The live figures of a host at one moment.
#[derive(Clone, Debug, PartialEq, Eq)]
pub struct LiveSnapshot {
    pub uptime_secs: u64,
    pub load: LoadAverage,
    pub components: Vec<Component>,
    pub batteries: Vec<Battery>,
}

/// Whether `text` stands for a finite number: it is neither `NaN` nor an infinity.
pub open spec fn finite_text(text: Seq<char>) -> bool {
    text != "NaN"@ && text != "inf"@ && text != "-inf"@
}

/// The word for a battery state.
pub open spec fn state_text(state: BatteryState) -> Seq<char> {
    match state {
        BatteryState::Unknown => "unknown"@,
        BatteryState::Charging => "charging"@,
        BatteryState::Discharging => "discharging"@,
        BatteryState::Empty => "empty"@,
        BatteryState::Full => "full"@,
        BatteryState::Paused => "paused"@,
    }
}

/// A live reading: never retained.
pub open spec fn live(host: Seq<char>, metric_path: Seq<char>, payload: Seq<char>) -> Seq<
    PublicationView,
> {
    seq![reading(host, metric_path, payload, false)]
}

/// What is published of one component: its temperature under its sanitized label, or
/// nothing where the sensor gave no finite reading.
pub open spec fn component_plan(host: Seq<char>, component: Component) -> Seq<PublicationView> {
    match component.temperature {
        Some(t) if finite_text(t@) => live(
            host,
            "component-temperature/"@ + sanitized(component.label@),
            t@,
        ),
        _ => Seq::empty(),
    }
}

/// What is published of the components, one after the other.
pub open spec fn components_plan(host: Seq<char>, components: Seq<Component>) -> Seq<
    PublicationView,
>
    decreases components.len(),
{
    if components.len() == 0 {
        Seq::empty()
    } else {
        components_plan(host, components.drop_last()) + component_plan(host, components.last())
    }
}

/// What is published of one battery.
pub open spec fn battery_plan(host: Seq<char>, battery: Battery) -> Seq<PublicationView> {
    live(host, "battery/charge"@, battery.charge@) + live(
        host,
        "battery/state"@,
        state_text(battery.state),
    ) + live(host, "battery/health"@, battery.health@) + match battery.cycle_count {
        Some(n) => live(host, "battery/cycle_count"@, decimal(n as nat)),
        None => Seq::empty(),
    }
}

/// What is published of the batteries, one after the other, all on the same topics.
pub open spec fn batteries_plan(host: Seq<char>, batteries: Seq<Battery>) -> Seq<PublicationView>
    decreases batteries.len(),
{
    if batteries.len() == 0 {
        Seq::empty()
    } else {
        batteries_plan(host, batteries.drop_last()) + battery_plan(host, batteries.last())
    }
}

/// Everything that is published of a snapshot, in order.
pub open spec fn live_plan(config: SessionConfig, snapshot: LiveSnapshot) -> Seq<PublicationView> {
    let host = config.host@;
    live(host, "uptime"@, uptime_text(snapshot.uptime_secs as nat)) + live(
        host,
        "load/one"@,
        snapshot.load.one@,
    ) + live(host, "load/five"@, snapshot.load.five@) + live(
        host,
        "load/fifteen"@,
        snapshot.load.fifteen@,
    ) + components_plan(host, snapshot.components@) + batteries_plan(host, snapshot.batteries@)
}

/// Whether `text` stands for a finite number.
pub fn is_finite_text(text: &str) -> (finite: bool)
    ensures
        finite == finite_text(text@),
{
    let nan = "NaN".to_owned();
    let inf = "inf".to_owned();
    let minus_inf = "-inf".to_owned();
    let given = text.to_owned();
    !(given == nan) && !(given == inf) && !(given == minus_inf)
}

impl BatteryState {
    /// The word for this state.
    pub fn label(&self) -> (word: String)
        ensures
            word@ == state_text(*self),
    {
        match self {
            BatteryState::Unknown => "unknown".to_owned(),
            BatteryState::Charging => "charging".to_owned(),
            BatteryState::Discharging => "discharging".to_owned(),
            BatteryState::Empty => "empty".to_owned(),
            BatteryState::Full => "full".to_owned(),
            BatteryState::Paused => "paused".to_owned(),
        }
    }
}

/// Appends a live reading.
fn push_live(out: &mut Vec<Publication>, host: &str, metric_path: &str, payload: String)
    ensures
        views(final(out)@) == views(old(out)@) + live(host@, metric_path@, payload@),
{
    push_reading(out, host, metric_path, payload, false);
    assert(views(out@) =~= views(old(out)@) + live(host@, metric_path@, payload@));
}

fn push_component(out: &mut Vec<Publication>, host: &str, component: &Component)
    ensures
        views(final(out)@) == views(old(out)@) + component_plan(host@, *component),
{
    match &component.temperature {
        Some(t) => {
            if is_finite_text(t.as_str()) {
                let mut path = "component-temperature/".to_owned();
                let label = sanitize(component.label.as_str());
                path.append(label.as_str());
                push_live(out, host, path.as_str(), t.clone());
                return ;
            }
        },
        None => {},
    }
    assert(views(out@) =~= views(old(out)@) + component_plan(host@, *component));
}

fn push_battery(out: &mut Vec<Publication>, host: &str, battery: &Battery)
    ensures
        views(final(out)@) == views(old(out)@) + battery_plan(host@, *battery),
{
    push_live(out, host, "battery/charge", battery.charge.clone());
    push_live(out, host, "battery/state", battery.state.label());
    push_live(out, host, "battery/health", battery.health.clone());
    match battery.cycle_count {
        Some(n) => {
            push_live(out, host, "battery/cycle_count", decimal_string(n as u64));
        },
        None => {},
    }
    assert(views(out@) =~= views(old(out)@) + battery_plan(host@, *battery));
}

/// What to publish on a tick: the uptime, the three load averages, the temperature of
/// each component whose sensor gave a finite reading, and four figures for each
/// battery, the cycle count only where the battery says it. None of it is retained.
pub fn on_loop(config: &SessionConfig, snapshot: &LiveSnapshot) -> (out: Vec<Publication>)
    ensures
        views(out@) == live_plan(*config, *snapshot),
{
    let host = config.host.as_str();
    let mut out: Vec<Publication> = Vec::new();
    push_live(&mut out, host, "uptime", format_uptime(snapshot.uptime_secs));
    push_live(&mut out, host, "load/one", snapshot.load.one.clone());
    push_live(&mut out, host, "load/five", snapshot.load.five.clone());
    push_live(&mut out, host, "load/fifteen", snapshot.load.fifteen.clone());
    let ghost fixed = views(out@);
    let mut i: usize = 0;
    assert(views(out@) =~= fixed + components_plan(host@, snapshot.components@.take(0)));
    while i < snapshot.components.len()
        invariant
            i <= snapshot.components.len(),
            views(out@) == fixed + components_plan(host@, snapshot.components@.take(i as int)),
        decreases snapshot.components.len() - i,
    {
        push_component(&mut out, host, &snapshot.components[i]);
        proof {
            let next = snapshot.components@.take(i + 1);
            assert(next.drop_last() =~= snapshot.components@.take(i as int));
            assert(next.last() == snapshot.components@[i as int]);
            assert(views(out@) =~= fixed + components_plan(host@, next));
        }
        i = i + 1;
    }
    assert(snapshot.components@.take(snapshot.components.len() as int) == snapshot.components@);
    let ghost sensed = views(out@);
    let mut j: usize = 0;
    assert(views(out@) =~= sensed + batteries_plan(host@, snapshot.batteries@.take(0)));
    while j < snapshot.batteries.len()
        invariant
            j <= snapshot.batteries.len(),
            views(out@) == sensed + batteries_plan(host@, snapshot.batteries@.take(j as int)),
        decreases snapshot.batteries.len() - j,
    {
        push_battery(&mut out, host, &snapshot.batteries[j]);
        proof {
            let next = snapshot.batteries@.take(j + 1);
            assert(next.drop_last() =~= snapshot.batteries@.take(j as int));
            assert(next.last() == snapshot.batteries@[j as int]);
            assert(views(out@) =~= sensed + batteries_plan(host@, next));
        }
        j = j + 1;
    }
    assert(snapshot.batteries@.take(snapshot.batteries.len() as int) == snapshot.batteries@);
    assert(views(out@) =~= live_plan(*config, *snapshot));
    out
}

/// Whether `p` is a live reading that leaves the presence topic of `host` alone: not
/// retained, delivered at least once, and on another topic than `<host>/status`.
pub open spec fn beside_presence(host: Seq<char>) -> spec_fn(PublicationView) -> bool {
    |p: PublicationView| !p.retain && p.qos == Qos::AtLeastOnce && p.topic != named(host, "status"@)
}

proof fn lemma_live_beside_presence(host: Seq<char>, metric_path: Seq<char>, payload: Seq<char>)
    requires
        metric_path != "status"@,
    ensures
        every(live(host, metric_path, payload), beside_presence(host)),
{
    lemma_named_apart(host, metric_path, "status"@);
}

proof fn lemma_components_beside_presence(host: Seq<char>, components: Seq<Component>)
    ensures
        every(components_plan(host, components), beside_presence(host)),
    decreases components.len(),
{
    if components.len() > 0 {
        lemma_components_beside_presence(host, components.drop_last());
        let last = components.last();
        let path = "component-temperature/"@ + sanitized(last.label@);
        reveal_strlit("component-temperature/");
        reveal_strlit("status");
        assert(path.len() != "status"@.len());
        match last.temperature {
            Some(t) => {
                lemma_live_beside_presence(host, path, t@);
            },
            None => {},
        }
        lemma_every_joined(
            components_plan(host, components.drop_last()),
            component_plan(host, last),
            beside_presence(host),
        );
    }
}

proof fn lemma_batteries_beside_presence(host: Seq<char>, batteries: Seq<Battery>)
    ensures
        every(batteries_plan(host, batteries), beside_presence(host)),
    decreases batteries.len(),
{
    if batteries.len() > 0 {
        lemma_batteries_beside_presence(host, batteries.drop_last());
        let last = batteries.last();
        reveal_strlit("battery/charge");
        reveal_strlit("battery/state");
        reveal_strlit("battery/health");
        reveal_strlit("battery/cycle_count");
        reveal_strlit("status");
        assert("battery/charge"@.len() != "status"@.len());
        assert("battery/state"@.len() != "status"@.len());
        assert("battery/health"@.len() != "status"@.len());
        assert("battery/cycle_count"@.len() != "status"@.len());
        let charge = live(host, "battery/charge"@, last.charge@);
        let state = live(host, "battery/state"@, state_text(last.state));
        let health = live(host, "battery/health"@, last.health@);
        lemma_live_beside_presence(host, "battery/charge"@, last.charge@);
        lemma_live_beside_presence(host, "battery/state"@, state_text(last.state));
        lemma_live_beside_presence(host, "battery/health"@, last.health@);
        lemma_every_joined(charge, state, beside_presence(host));
        lemma_every_joined(charge + state, health, beside_presence(host));
        match last.cycle_count {
            Some(n) => {
                lemma_live_beside_presence(host, "battery/cycle_count"@, decimal(n as nat));
                lemma_every_joined(
                    charge + state + health,
                    live(host, "battery/cycle_count"@, decimal(n as nat)),
                    beside_presence(host),
                );
            },
            None => {
                lemma_every_joined(charge + state + health, Seq::empty(), beside_presence(host));
            },
        }
        lemma_every_joined(
            batteries_plan(host, batteries.drop_last()),
            battery_plan(host, last),
            beside_presence(host),
        );
    }
}

/// A tick never touches the presence marker: whatever the snapshot holds, nothing that
/// is published of it goes to `<host>/status`, and nothing of it is retained.
pub proof fn lemma_tick_beside_presence(config: SessionConfig, snapshot: LiveSnapshot)
    ensures
        every(live_plan(config, snapshot), beside_presence(config.host@)),
        forall|i: int|
            0 <= i < live_plan(config, snapshot).len() ==> (#[trigger] live_plan(
                config,
                snapshot,
            )[i]).topic != presence_of(config).topic,
{
    let host = config.host@;
    reveal_strlit("uptime");
    reveal_strlit("load/one");
    reveal_strlit("load/five");
    reveal_strlit("load/fifteen");
    reveal_strlit("status");
    assert("uptime"@[0] != "status"@[0]);
    assert("load/one"@.len() != "status"@.len());
    assert("load/five"@.len() != "status"@.len());
    assert("load/fifteen"@.len() != "status"@.len());
    let uptime = live(host, "uptime"@, uptime_text(snapshot.uptime_secs as nat));
    let one = live(host, "load/one"@, snapshot.load.one@);
    let five = live(host, "load/five"@, snapshot.load.five@);
    let fifteen = live(host, "load/fifteen"@, snapshot.load.fifteen@);
    lemma_live_beside_presence(host, "uptime"@, uptime_text(snapshot.uptime_secs as nat));
    lemma_live_beside_presence(host, "load/one"@, snapshot.load.one@);
    lemma_live_beside_presence(host, "load/five"@, snapshot.load.five@);
    lemma_live_beside_presence(host, "load/fifteen"@, snapshot.load.fifteen@);
    lemma_components_beside_presence(host, snapshot.components@);
    lemma_batteries_beside_presence(host, snapshot.batteries@);
    lemma_every_joined(uptime, one, beside_presence(host));
    lemma_every_joined(uptime + one, five, beside_presence(host));
    lemma_every_joined(uptime + one + five, fifteen, beside_presence(host));
    lemma_every_joined(
        uptime + one + five + fifteen,
        components_plan(host, snapshot.components@),
        beside_presence(host),
    );
    lemma_every_joined(
        uptime + one + five + fifteen + components_plan(host, snapshot.components@),
        batteries_plan(host, snapshot.batteries@),
        beside_presence(host),
    );
    let plan = live_plan(config, snapshot);
    assert forall|i: int| 0 <= i < plan.len() implies (#[trigger] plan[i]).topic != presence_of(
        config,
    ).topic by {
        assert(beside_presence(host)(plan[i]));
    }
}

} // verus!
