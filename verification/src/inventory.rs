//! The static inventory of a host, and what is published of it once, at the start.

use vstd::prelude::*;
use crate::listing::{insert_label, join, joined, listed, rows};
use crate::moment::{boot_time_text, format_boot_time, BootTime};
use crate::publication::{
    every, lemma_every_joined, push_reading, reading, views, Publication, PublicationView, Qos,
};
use crate::mqtt::SessionConfig;
use crate::text::{decimal, decimal_string, lemma_trimmed_is_trim, string_text, trim, trimmed};

verus! {

/// The program that reports: its name, its version and where its source lives.
#[derive(Clone, Debug, PartialEq, Eq)]
pub struct Package {
    pub name: String,
    pub version: String,
    pub repository: String,
}

/// One logical processor.
#[derive(Clone, Debug, PartialEq, Eq)]
pub struct Cpu {
    pub brand: String,
    pub vendor_id: String,
}

/// What the main board says of itself.
#[derive(Clone, Debug, PartialEq, Eq)]
pub struct Motherboard {
    pub name: Option<String>,
    pub vendor: Option<String>,
    pub version: Option<String>,
}

/// What the machine says of itself as a product.
#[derive(Clone, Debug, PartialEq, Eq)]
pub struct Product {
    pub name: Option<String>,
    pub family: Option<String>,
    pub stock_keeping_unit: Option<String>,
    pub vendor: Option<String>,
    pub version: Option<String>,
}

/// The static inventory of a host. A value that the platform does not give is `None`.
#[derive(Clone, Debug, PartialEq, Eq)]
pub struct Inventory {
    pub package: Package,
    pub boot_time: BootTime,
    pub distribution_id: String,
    pub os_name: Option<String>,
    pub os_version: Option<String>,
    pub kernel_version: Option<String>,
    pub cpu_arch: String,
    pub physical_cores: Option<usize>,
    pub cpus: Vec<Cpu>,
    pub motherboard: Option<Motherboard>,
    pub product: Product,
}

/// The brand of each processor, in order.
pub open spec fn brands(cpus: Seq<Cpu>) -> Seq<Seq<char>> {
    cpus.map_values(|cpu: Cpu| cpu.brand@)
}

/// The vendor of each processor, in order.
pub open spec fn vendors(cpus: Seq<Cpu>) -> Seq<Seq<char>> {
    cpus.map_values(|cpu: Cpu| cpu.vendor_id@)
}

/// The one publication of a value that is there: trimmed, under the session's retain
/// flag.
pub open spec fn present(config: SessionConfig, metric_path: Seq<char>, payload: Seq<char>) -> Seq<
    PublicationView,
> {
    seq![reading(config.host@, metric_path, trimmed(payload), config.retain)]
}

/// The publication of a value that may be missing: none, if it is.
pub open spec fn optional(
    config: SessionConfig,
    metric_path: Seq<char>,
    payload: Option<Seq<char>>,
) -> Seq<PublicationView> {
    match payload {
        Some(p) => present(config, metric_path, p),
        None => Seq::empty(),
    }
}

/// A count that may be missing, in decimal digits.
pub open spec fn count_text(count: Option<usize>) -> Option<Seq<char>> {
    match count {
        Some(n) => Some(decimal(n as nat)),
        None => None,
    }
}

/// What is published of the reporting program.
pub open spec fn package_plan(config: SessionConfig, package: Package) -> Seq<PublicationView> {
    present(config, package.name@ + "/repository"@, package.repository@) + present(
        config,
        package.name@ + "/version"@,
        package.version@,
    )
}

/// What is published of the operating system, `boot_text` being the boot time as text.
pub open spec fn system_plan(
    config: SessionConfig,
    inventory: Inventory,
    boot_text: Option<Seq<char>>,
) -> Seq<PublicationView> {
    optional(config, "boot-time"@, boot_text) + present(
        config,
        "distribution"@,
        inventory.distribution_id@,
    ) + optional(config, "os-name"@, string_text(inventory.os_name)) + optional(
        config,
        "os-version"@,
        string_text(inventory.os_version),
    ) + optional(config, "kernel"@, string_text(inventory.kernel_version))
}

/// What is published of the processors: the architecture, the number of cores if it is
/// known, the number of threads, and the distinct brands and vendors, each list in
/// ascending order with `; ` between its members.
pub open spec fn cpu_plan(config: SessionConfig, inventory: Inventory) -> Seq<PublicationView> {
    present(config, "cpu-arch"@, inventory.cpu_arch@) + optional(
        config,
        "cpu-cores"@,
        count_text(inventory.physical_cores),
    ) + present(config, "cpu-threads"@, decimal(inventory.cpus@.len())) + present(
        config,
        "cpu-brand"@,
        joined(listed(brands(inventory.cpus@)), "; "@),
    ) + present(config, "cpu-vendor"@, joined(listed(vendors(inventory.cpus@)), "; "@))
}

/// What is published of the main board: nothing where there is none.
pub open spec fn motherboard_plan(config: SessionConfig, board: Option<Motherboard>) -> Seq<
    PublicationView,
> {
    match board {
        Some(b) => optional(config, "motherboard/name"@, string_text(b.name)) + optional(
            config,
            "motherboard/vendor"@,
            string_text(b.vendor),
        ) + optional(config, "motherboard/version"@, string_text(b.version)),
        None => Seq::empty(),
    }
}

/// What is published of the machine as a product.
pub open spec fn product_plan(config: SessionConfig, product: Product) -> Seq<PublicationView> {
    optional(config, "product/name"@, string_text(product.name)) + optional(
        config,
        "product/family"@,
        string_text(product.family),
    ) + optional(config, "product/stock_keeping_unit"@, string_text(product.stock_keeping_unit))
        + optional(config, "product/vendor"@, string_text(product.vendor)) + optional(
        config,
        "product/version"@,
        string_text(product.version),
    )
}

/// Everything that is published of an inventory, in order, `boot_text` being the boot
/// time as text.
pub open spec fn inventory_plan(
    config: SessionConfig,
    inventory: Inventory,
    boot_text: Option<Seq<char>>,
) -> Seq<PublicationView> {
    package_plan(config, inventory.package) + system_plan(config, inventory, boot_text) + cpu_plan(
        config,
        inventory,
    ) + motherboard_plan(config, inventory.motherboard) + product_plan(config, inventory.product)
}

/// Appends the publication of a value that is there.
fn push_present(
    out: &mut Vec<Publication>,
    config: &SessionConfig,
    metric_path: &str,
    payload: &str,
)
    ensures
        views(final(out)@) == views(old(out)@) + present(*config, metric_path@, payload@),
{
    push_reading(out, config.host.as_str(), metric_path, trim(payload), config.retain);
    assert(views(out@) =~= views(old(out)@) + present(*config, metric_path@, payload@));
}

/// Appends the publication of a value that may be missing.
fn push_optional(
    out: &mut Vec<Publication>,
    config: &SessionConfig,
    metric_path: &str,
    payload: &Option<String>,
)
    ensures
        views(final(out)@) == views(old(out)@) + optional(
            *config,
            metric_path@,
            string_text(*payload),
        ),
{
    match payload {
        Some(p) => {
            push_present(out, config, metric_path, p.as_str());
        },
        None => {
            assert(views(out@) =~= views(old(out)@) + Seq::<PublicationView>::empty());
        },
    }
}

fn push_package(out: &mut Vec<Publication>, config: &SessionConfig, package: &Package)
    ensures
        views(final(out)@) == views(old(out)@) + package_plan(*config, *package),
{
    let mut repository_path = package.name.clone();
    repository_path.append("/repository");
    push_present(out, config, repository_path.as_str(), package.repository.as_str());
    let mut version_path = package.name.clone();
    version_path.append("/version");
    push_present(out, config, version_path.as_str(), package.version.as_str());
    assert(views(out@) =~= views(old(out)@) + package_plan(*config, *package));
}

fn push_system(
    out: &mut Vec<Publication>,
    config: &SessionConfig,
    inventory: &Inventory,
    boot_text: &Option<String>,
)
    ensures
        views(final(out)@) == views(old(out)@) + system_plan(
            *config,
            *inventory,
            string_text(*boot_text),
        ),
{
    push_optional(out, config, "boot-time", boot_text);
    push_present(out, config, "distribution", inventory.distribution_id.as_str());
    push_optional(out, config, "os-name", &inventory.os_name);
    push_optional(out, config, "os-version", &inventory.os_version);
    push_optional(out, config, "kernel", &inventory.kernel_version);
    assert(views(out@) =~= views(old(out)@) + system_plan(
        *config,
        *inventory,
        string_text(*boot_text),
    ));
}

/// The distinct brands of `cpus`, ascending, with `; ` between them.
fn brand_line(cpus: &Vec<Cpu>) -> (line: String)
    ensures
        line@ == joined(listed(brands(cpus@)), "; "@),
{
    let mut list: Vec<Vec<char>> = Vec::new();
    let mut i: usize = 0;
    assert(rows(list@) =~= listed(brands(cpus@.take(0))));
    while i < cpus.len()
        invariant
            i <= cpus.len(),
            rows(list@) == listed(brands(cpus@.take(i as int))),
        decreases cpus.len() - i,
    {
        insert_label(&mut list, cpus[i].brand.as_str());
        proof {
            let next = brands(cpus@.take(i + 1));
            assert(next.drop_last() =~= brands(cpus@.take(i as int)));
            assert(next.last() == cpus@[i as int].brand@);
        }
        i = i + 1;
    }
    assert(cpus@.take(cpus.len() as int) == cpus@);
    join(&list, "; ")
}

/// The distinct vendors of `cpus`, ascending, with `; ` between them.
fn vendor_line(cpus: &Vec<Cpu>) -> (line: String)
    ensures
        line@ == joined(listed(vendors(cpus@)), "; "@),
{
    let mut list: Vec<Vec<char>> = Vec::new();
    let mut i: usize = 0;
    assert(rows(list@) =~= listed(vendors(cpus@.take(0))));
    while i < cpus.len()
        invariant
            i <= cpus.len(),
            rows(list@) == listed(vendors(cpus@.take(i as int))),
        decreases cpus.len() - i,
    {
        insert_label(&mut list, cpus[i].vendor_id.as_str());
        proof {
            let next = vendors(cpus@.take(i + 1));
            assert(next.drop_last() =~= vendors(cpus@.take(i as int)));
            assert(next.last() == cpus@[i as int].vendor_id@);
        }
        i = i + 1;
    }
    assert(cpus@.take(cpus.len() as int) == cpus@);
    join(&list, "; ")
}

fn push_cpu(out: &mut Vec<Publication>, config: &SessionConfig, inventory: &Inventory)
    ensures
        views(final(out)@) == views(old(out)@) + cpu_plan(*config, *inventory),
{
    push_present(out, config, "cpu-arch", inventory.cpu_arch.as_str());
    let cores = match inventory.physical_cores {
        Some(n) => Some(decimal_string(n as u64)),
        None => None,
    };
    push_optional(out, config, "cpu-cores", &cores);
    let threads = decimal_string(inventory.cpus.len() as u64);
    push_present(out, config, "cpu-threads", threads.as_str());
    let brand = brand_line(&inventory.cpus);
    push_present(out, config, "cpu-brand", brand.as_str());
    let vendor = vendor_line(&inventory.cpus);
    push_present(out, config, "cpu-vendor", vendor.as_str());
    assert(views(out@) =~= views(old(out)@) + cpu_plan(*config, *inventory));
}

fn push_motherboard(out: &mut Vec<Publication>, config: &SessionConfig, board: &Option<Motherboard>)
    ensures
        views(final(out)@) == views(old(out)@) + motherboard_plan(*config, *board),
{
    match board {
        Some(b) => {
            push_optional(out, config, "motherboard/name", &b.name);
            push_optional(out, config, "motherboard/vendor", &b.vendor);
            push_optional(out, config, "motherboard/version", &b.version);
        },
        None => {},
    }
    assert(views(out@) =~= views(old(out)@) + motherboard_plan(*config, *board));
}

fn push_product(out: &mut Vec<Publication>, config: &SessionConfig, product: &Product)
    ensures
        views(final(out)@) == views(old(out)@) + product_plan(*config, *product),
{
    push_optional(out, config, "product/name", &product.name);
    push_optional(out, config, "product/family", &product.family);
    push_optional(out, config, "product/stock_keeping_unit", &product.stock_keeping_unit);
    push_optional(out, config, "product/vendor", &product.vendor);
    push_optional(out, config, "product/version", &product.version);
    assert(views(out@) =~= views(old(out)@) + product_plan(*config, *product));
}

/// The publications of an inventory whose boot time has been written out as
/// `boot_text`: every value that is there, trimmed, in a fixed order, under the
/// session's retain flag; nothing for a value that is missing.
pub fn inventory_publications(
    config: &SessionConfig,
    inventory: &Inventory,
    boot_text: &Option<String>,
) -> (out: Vec<Publication>)
    ensures
        views(out@) == inventory_plan(*config, *inventory, string_text(*boot_text)),
{
    let mut out: Vec<Publication> = Vec::new();
    push_package(&mut out, config, &inventory.package);
    push_system(&mut out, config, inventory, boot_text);
    push_cpu(&mut out, config, inventory);
    push_motherboard(&mut out, config, &inventory.motherboard);
    push_product(&mut out, config, &inventory.product);
    assert(views(out@) =~= inventory_plan(*config, *inventory, string_text(*boot_text)));
    out
}

/// What to publish once, at the start: the inventory, its boot time written as an
/// ISO 8601 timestamp, or left out where it cannot be written.
pub fn on_start(config: &SessionConfig, inventory: &Inventory) -> (out: Vec<Publication>)
    ensures
        views(out@) == inventory_plan(*config, *inventory, boot_time_text(inventory.boot_time)),
{
    let boot_text = format_boot_time(&inventory.boot_time);
    inventory_publications(config, inventory, &boot_text)
}

/// Whether `p` is fit for the inventory of `config`: delivered at least once, under the
/// session's retain flag, its payload trimmed.
pub open spec fn inventory_entry(config: SessionConfig) -> spec_fn(PublicationView) -> bool {
    |p: PublicationView|
        p.retain == config.retain && p.qos == Qos::AtLeastOnce && trimmed(p.payload) == p.payload
}

proof fn lemma_present_entry(config: SessionConfig, metric_path: Seq<char>, payload: Seq<char>)
    ensures
        every(present(config, metric_path, payload), inventory_entry(config)),
{
    lemma_trimmed_is_trim(payload);
}

proof fn lemma_optional_entry(
    config: SessionConfig,
    metric_path: Seq<char>,
    payload: Option<Seq<char>>,
)
    ensures
        every(optional(config, metric_path, payload), inventory_entry(config)),
{
    if let Some(p) = payload {
        lemma_present_entry(config, metric_path, p);
    }
}

/// Every publication of an inventory is delivered at least once, carries the session's
/// retain flag, and has a payload without whitespace around it.
pub proof fn lemma_inventory_entries(
    config: SessionConfig,
    inventory: Inventory,
    boot_text: Option<Seq<char>>,
)
    ensures
        every(inventory_plan(config, inventory, boot_text), inventory_entry(config)),
{
    let fit = inventory_entry(config);
    let package = inventory.package;
    lemma_present_entry(config, package.name@ + "/repository"@, package.repository@);
    lemma_present_entry(config, package.name@ + "/version"@, package.version@);
    lemma_every_joined(
        present(config, package.name@ + "/repository"@, package.repository@),
        present(config, package.name@ + "/version"@, package.version@),
        fit,
    );
    let boot = optional(config, "boot-time"@, boot_text);
    let distribution = present(config, "distribution"@, inventory.distribution_id@);
    let os_name = optional(config, "os-name"@, string_text(inventory.os_name));
    let os_version = optional(config, "os-version"@, string_text(inventory.os_version));
    let kernel = optional(config, "kernel"@, string_text(inventory.kernel_version));
    lemma_optional_entry(config, "boot-time"@, boot_text);
    lemma_present_entry(config, "distribution"@, inventory.distribution_id@);
    lemma_optional_entry(config, "os-name"@, string_text(inventory.os_name));
    lemma_optional_entry(config, "os-version"@, string_text(inventory.os_version));
    lemma_optional_entry(config, "kernel"@, string_text(inventory.kernel_version));
    lemma_every_joined(boot, distribution, fit);
    lemma_every_joined(boot + distribution, os_name, fit);
    lemma_every_joined(boot + distribution + os_name, os_version, fit);
    lemma_every_joined(boot + distribution + os_name + os_version, kernel, fit);
    let arch = present(config, "cpu-arch"@, inventory.cpu_arch@);
    let cores = optional(config, "cpu-cores"@, count_text(inventory.physical_cores));
    let threads = present(config, "cpu-threads"@, decimal(inventory.cpus@.len()));
    let brand = present(config, "cpu-brand"@, joined(listed(brands(inventory.cpus@)), "; "@));
    let vendor = present(config, "cpu-vendor"@, joined(listed(vendors(inventory.cpus@)), "; "@));
    lemma_present_entry(config, "cpu-arch"@, inventory.cpu_arch@);
    lemma_optional_entry(config, "cpu-cores"@, count_text(inventory.physical_cores));
    lemma_present_entry(config, "cpu-threads"@, decimal(inventory.cpus@.len()));
    lemma_present_entry(config, "cpu-brand"@, joined(listed(brands(inventory.cpus@)), "; "@));
    lemma_present_entry(config, "cpu-vendor"@, joined(listed(vendors(inventory.cpus@)), "; "@));
    lemma_every_joined(arch, cores, fit);
    lemma_every_joined(arch + cores, threads, fit);
    lemma_every_joined(arch + cores + threads, brand, fit);
    lemma_every_joined(arch + cores + threads + brand, vendor, fit);
    if let Some(b) = inventory.motherboard {
        let name = optional(config, "motherboard/name"@, string_text(b.name));
        let maker = optional(config, "motherboard/vendor"@, string_text(b.vendor));
        let version = optional(config, "motherboard/version"@, string_text(b.version));
        lemma_optional_entry(config, "motherboard/name"@, string_text(b.name));
        lemma_optional_entry(config, "motherboard/vendor"@, string_text(b.vendor));
        lemma_optional_entry(config, "motherboard/version"@, string_text(b.version));
        lemma_every_joined(name, maker, fit);
        lemma_every_joined(name + maker, version, fit);
    }
    let product = inventory.product;
    let name = optional(config, "product/name"@, string_text(product.name));
    let family = optional(config, "product/family"@, string_text(product.family));
    let unit = optional(
        config,
        "product/stock_keeping_unit"@,
        string_text(product.stock_keeping_unit),
    );
    let maker = optional(config, "product/vendor"@, string_text(product.vendor));
    let version = optional(config, "product/version"@, string_text(product.version));
    lemma_optional_entry(config, "product/name"@, string_text(product.name));
    lemma_optional_entry(config, "product/family"@, string_text(product.family));
    lemma_optional_entry(
        config,
        "product/stock_keeping_unit"@,
        string_text(product.stock_keeping_unit),
    );
    lemma_optional_entry(config, "product/vendor"@, string_text(product.vendor));
    lemma_optional_entry(config, "product/version"@, string_text(product.version));
    lemma_every_joined(name, family, fit);
    lemma_every_joined(name + family, unit, fit);
    lemma_every_joined(name + family + unit, maker, fit);
    lemma_every_joined(name + family + unit + maker, version, fit);
    let first = package_plan(config, package);
    let second = system_plan(config, inventory, boot_text);
    let third = cpu_plan(config, inventory);
    let fourth = motherboard_plan(config, inventory.motherboard);
    let fifth = product_plan(config, product);
    lemma_every_joined(first, second, fit);
    lemma_every_joined(first + second, third, fit);
    lemma_every_joined(first + second + third, fourth, fit);
    lemma_every_joined(first + second + third + fourth, fifth, fit);
}

/// Publishing one inventory twice gives the same topics and the same payloads, one for
/// one: what is published depends on the configuration, the inventory and the text of
/// the boot time, and on nothing else.
pub proof fn lemma_inventory_repeats(
    config: SessionConfig,
    inventory: Inventory,
    boot_text: Option<Seq<char>>,
    first: Seq<Publication>,
    second: Seq<Publication>,
)
    requires
        views(first) == inventory_plan(config, inventory, boot_text),
        views(second) == inventory_plan(config, inventory, boot_text),
    ensures
        first.len() == second.len(),
        forall|i: int|
            0 <= i < first.len() ==> (#[trigger] first[i]).topic@ == second[i].topic@
                && first[i].payload@ == second[i].payload@,
{
    assert(views(first).len() == first.len());
    assert(views(second).len() == second.len());
    assert forall|i: int| 0 <= i < first.len() implies (#[trigger] first[i]).topic@
        == second[i].topic@ && first[i].payload@ == second[i].payload@ by {
        assert(views(first)[i] == first[i]@);
        assert(views(second)[i] == second[i]@);
    }
}

} // verus!
