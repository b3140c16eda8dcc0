//! Choices made from what the firmware reports.
use vstd::prelude::*;

verus! {

/// Kind of an entry of the firmware's configuration table, as far as the
/// bootloader cares.
#[derive(Clone, Copy, Debug, PartialEq, Eq, Structural)]
pub enum ConfigKind {
    /// The ACPI 2.0 root system description pointer.
    Acpi2,
    /// The ACPI 1.0 root system description pointer.
    Acpi1,
    Other,
}

/// One entry of the configuration table: its kind and the address it gives.
#[derive(Clone, Copy, Debug, PartialEq, Eq, Structural)]
pub struct ConfigEntry {
    pub kind: ConfigKind,
    pub address: u64,
}

/// Address of the first entry of kind `kind`, if any.
pub open spec fn first_of_kind(entries: Seq<ConfigEntry>, kind: ConfigKind) -> Option<u64>
    decreases entries.len(),
{
    if entries.len() == 0 {
        None
    } else if entries[0].kind == kind {
        Some(entries[0].address)
    } else {
        first_of_kind(entries.drop_first(), kind)
    }
}

/// Address of the first entry of kind `kind`.
fn find_kind(entries: &Vec<ConfigEntry>, kind: ConfigKind) -> (r: Option<u64>)
    ensures
        r == first_of_kind(entries@, kind),
{
    let mut i: usize = 0;
    assert(entries@.skip(0) =~= entries@);
    while i < entries.len()
        invariant
            0 <= i <= entries@.len(),
            first_of_kind(entries@, kind) == first_of_kind(entries@.skip(i as int), kind),
        decreases entries@.len() - i,
    {
        assert(entries@.skip(i as int)[0] == entries@[i as int]);
        assert(entries@.skip(i as int).drop_first() =~= entries@.skip(i as int + 1));
        if entries[i].kind == kind {
            return Some(entries[i].address);
        }
        i = i + 1;
    }
    None
}

/// The root pointer chosen from the entries: the first ACPI 2.0 entry's
/// address, or else the first ACPI 1.0 entry's, or none.
pub open spec fn rsdp_choice(entries: Seq<ConfigEntry>) -> Option<u64> {
    match first_of_kind(entries, ConfigKind::Acpi2) {
        Some(a) => Some(a),
        None => first_of_kind(entries, ConfigKind::Acpi1),
    }
}

/// The ACPI root pointer to hand to the kernel: the first ACPI 2.0 entry's
/// address, or else the first ACPI 1.0 entry's, or none.
pub fn find_rsdp(entries: &Vec<ConfigEntry>) -> (r: Option<u64>)
    ensures
        r == rsdp_choice(entries@),
{
    match find_kind(entries, ConfigKind::Acpi2) {
        Some(a) => Some(a),
        None => find_kind(entries, ConfigKind::Acpi1),
    }
}

/// Search law on indices: when entry `i` is the first of kind `kind`, whatever
/// its index, the search answers with its address.
pub proof fn lemma_first_of_kind_at(entries: Seq<ConfigEntry>, kind: ConfigKind, i: int)
    requires
        0 <= i < entries.len(),
        entries[i].kind == kind,
        forall|j: int| 0 <= j < i ==> #[trigger] entries[j].kind != kind,
    ensures
        first_of_kind(entries, kind) == Some(entries[i].address),
    decreases i,
{
    if i > 0 {
        let rest = entries.drop_first();
        assert(entries[0].kind != kind);
        assert(rest[i - 1] == entries[i]);
        assert forall|j: int| 0 <= j < i - 1 implies #[trigger] rest[j].kind != kind by {
            assert(rest[j] == entries[j + 1]);
        }
        lemma_first_of_kind_at(rest, kind, i - 1);
    }
}

/// Search law without a match: when no entry has kind `kind`, the search
/// answers `None`.
pub proof fn lemma_first_of_kind_absent(entries: Seq<ConfigEntry>, kind: ConfigKind)
    requires
        forall|j: int| 0 <= j < entries.len() ==> #[trigger] entries[j].kind != kind,
    ensures
        first_of_kind(entries, kind) is None,
    decreases entries.len(),
{
    if entries.len() > 0 {
        let rest = entries.drop_first();
        assert(entries[0].kind != kind);
        assert forall|j: int| 0 <= j < rest.len() implies #[trigger] rest[j].kind != kind by {
            assert(rest[j] == entries[j + 1]);
        }
        lemma_first_of_kind_absent(rest, kind);
    }
}

/// Root pointer law, ACPI 2.0 first: when entry `i` is the first ACPI 2.0
/// entry, whatever its index, its address is chosen.
pub proof fn lemma_rsdp_prefers_first_acpi2(entries: Seq<ConfigEntry>, i: int)
    requires
        0 <= i < entries.len(),
        entries[i].kind == ConfigKind::Acpi2,
        forall|j: int| 0 <= j < i ==> #[trigger] entries[j].kind != ConfigKind::Acpi2,
    ensures
        rsdp_choice(entries) == Some(entries[i].address),
{
    lemma_first_of_kind_at(entries, ConfigKind::Acpi2, i);
}

/// Root pointer law, ACPI 1.0 fallback: without ACPI 2.0 entries, the first
/// ACPI 1.0 entry's address is chosen, whatever its index.
pub proof fn lemma_rsdp_falls_back_to_first_acpi1(entries: Seq<ConfigEntry>, i: int)
    requires
        forall|j: int| 0 <= j < entries.len() ==> #[trigger] entries[j].kind != ConfigKind::Acpi2,
        0 <= i < entries.len(),
        entries[i].kind == ConfigKind::Acpi1,
        forall|j: int| 0 <= j < i ==> #[trigger] entries[j].kind != ConfigKind::Acpi1,
    ensures
        rsdp_choice(entries) == Some(entries[i].address),
{
    lemma_first_of_kind_absent(entries, ConfigKind::Acpi2);
    lemma_first_of_kind_at(entries, ConfigKind::Acpi1, i);
}

/// Root pointer law, nothing to choose: without ACPI entries of either kind
/// there is no root pointer.
pub proof fn lemma_rsdp_absent(entries: Seq<ConfigEntry>)
    requires
        forall|j: int|
            0 <= j < entries.len() ==> #[trigger] entries[j].kind != ConfigKind::Acpi2 && entries[j].kind
                != ConfigKind::Acpi1,
    ensures
        rsdp_choice(entries) is None,
{
    lemma_first_of_kind_absent(entries, ConfigKind::Acpi2);
    lemma_first_of_kind_absent(entries, ConfigKind::Acpi1);
}

} // verus!
