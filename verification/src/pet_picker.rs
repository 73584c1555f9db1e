//! The menu in which a pet is chosen.

use vstd::prelude::*;

use crate::order;
use crate::text;

verus! {

/// The identifiers with a meaning of their own.
#[derive(Clone, Copy, Debug)]
pub struct PetIds<'a> {
    /// The pet that is shown where none was chosen.
    pub default_pet: &'a str,
    /// The choice of no pet.
    pub disabled: &'a str,
}

/// What the files of a pet say of it.
#[derive(Debug)]
pub struct PetDetails {
    pub display_name: String,
    pub description: String,
}

/// A directory among those of pets.
#[derive(Debug)]
pub struct InstalledPet {
    pub selector: String,
    pub has_manifest: bool,
    /// What its files say, where they can be read.
    pub details: Option<PetDetails>,
}

/// A choice.
#[derive(Debug, PartialEq, Eq)]
pub struct PetPickerEntry {
    pub selector: String,
    pub display_name: String,
    pub description: Option<String>,
}

/// A choice, as mathematical values.
#[verifier::ext_equal]
pub ghost struct EntryView {
    pub selector: Seq<char>,
    pub display_name: Seq<char>,
    pub description: Option<Seq<char>>,
}

impl View for PetPickerEntry {
    type V = EntryView;

    open spec fn view(&self) -> EntryView {
        EntryView {
            selector: self.selector@,
            display_name: self.display_name@,
            description: text::option_view(self.description),
        }
    }
}

/// Choices, as mathematical values.
pub open spec fn entry_views(entries: Seq<PetPickerEntry>) -> Seq<EntryView> {
    Seq::new(entries.len(), |i: int| entries[i]@)
}

/// The choice of a pet: what its files say, or else its identifier.
pub open spec fn entry_of(selector: Seq<char>, details: Option<PetDetails>) -> EntryView {
    match details {
        Some(d) => EntryView {
            selector,
            display_name: d.display_name@,
            description: if d.description@.len() == 0 {
                None
            } else {
                Some(d.description@)
            },
        },
        None => EntryView { selector, display_name: selector, description: None },
    }
}

/// The choice of no pet.
pub open spec fn disabled_entry(ids: PetIds) -> EntryView {
    EntryView {
        selector: ids.disabled@,
        display_name: "None"@,
        description: Some("Disable terminal pets."@),
    }
}

/// The choices that the first `n` directories bring.
pub open spec fn installed_entries(pets: Seq<InstalledPet>, disabled: Seq<char>, n: int) -> Seq<
    EntryView,
>
    decreases n,
{
    if n <= 0 {
        Seq::empty()
    } else {
        let before = installed_entries(pets, disabled, n - 1);
        let pet = pets[n - 1];
        if pet.has_manifest && pet.selector@ != disabled {
            before.push(entry_of(pet.selector@, pet.details))
        } else {
            before
        }
    }
}

/// All choices, in no particular order: the bundled pets, no pet, and the installed ones.
pub open spec fn all_entries(
    ids: PetIds,
    default_details: Option<PetDetails>,
    boba_details: Option<PetDetails>,
    installed: Seq<InstalledPet>,
) -> Seq<EntryView> {
    seq![
        entry_of(ids.default_pet@, default_details),
        entry_of("boba"@, boba_details),
        disabled_entry(ids),
    ] + installed_entries(installed, ids.disabled@, installed.len() as int)
}

/// The choice of a pet.
pub fn pet_picker_entry(selector: &str, details: &Option<PetDetails>) -> (r: PetPickerEntry)
    ensures
        r@ == entry_of(selector@, *details),
{
    let r = match details {
        Some(d) => PetPickerEntry {
            selector: selector.to_owned(),
            display_name: d.display_name.clone(),
            description: if text::chars_of(d.description.as_str()).len() == 0 {
                None
            } else {
                Some(d.description.clone())
            },
        },
        None => PetPickerEntry {
            selector: selector.to_owned(),
            display_name: selector.to_owned(),
            description: None,
        },
    };
    assert(r@ =~= entry_of(selector@, *details));
    r
}

/// All choices: the bundled pets, no pet, and the installed ones. A directory that is named
/// like the choice of no pet is left out.
pub fn available_pet_entries(
    ids: PetIds,
    default_details: &Option<PetDetails>,
    boba_details: &Option<PetDetails>,
    installed: &[InstalledPet],
) -> (r: Vec<PetPickerEntry>)
    ensures
        entry_views(r@) == all_entries(ids, *default_details, *boba_details, installed@),
{
    let mut r: Vec<PetPickerEntry> = Vec::new();
    r.push(pet_picker_entry(ids.default_pet, default_details));
    r.push(pet_picker_entry("boba", boba_details));
    let none = PetPickerEntry {
        selector: ids.disabled.to_owned(),
        display_name: "None".to_owned(),
        description: Some("Disable terminal pets.".to_owned()),
    };
    assert(none@ =~= disabled_entry(ids));
    r.push(none);
    let ghost first = entry_views(r@);
    assert(first =~= seq![
        entry_of(ids.default_pet@, *default_details),
        entry_of("boba"@, *boba_details),
        disabled_entry(ids),
    ]);
    let mut i: usize = 0;
    assert(first + installed_entries(installed@, ids.disabled@, 0) =~= first);
    while i < installed.len()
        invariant
            i <= installed.len(),
            entry_views(r@) == first + installed_entries(installed@, ids.disabled@, i as int),
        decreases installed.len() - i,
    {
        let pet = &installed[i];
        if pet.has_manifest && !text::same_str(pet.selector.as_str(), ids.disabled) {
            let ghost before = r@;
            let entry = pet_picker_entry(pet.selector.as_str(), &pet.details);
            r.push(entry);
            assert(entry_views(r@) =~= entry_views(before).push(entry@));
            assert((first + installed_entries(installed@, ids.disabled@, i as int)).push(entry@)
                =~= first + installed_entries(installed@, ids.disabled@, i + 1));
        }
        i = i + 1;
    }
    r
}

// ---- the menu ----

/// What choosing an item does.
#[derive(Debug, PartialEq, Eq)]
pub enum PetAction {
    Disable,
    Select(String),
}

/// An item of the menu.
#[derive(Debug, PartialEq, Eq)]
pub struct PetItem {
    pub name: String,
    pub description: Option<String>,
    pub is_current: bool,
    pub dismiss_on_select: bool,
    pub search_value: String,
    pub action: PetAction,
}

/// The menu.
#[derive(Debug)]
pub struct PetPickerParams {
    pub title: String,
    pub subtitle: String,
    pub items: Vec<PetItem>,
    pub is_searchable: bool,
    pub search_placeholder: String,
    pub initial_selected_idx: Option<usize>,
}

/// Whether an item shows a choice.
pub open spec fn shows(
    item: PetItem,
    entry: EntryView,
    current: Seq<char>,
    disabled: Seq<char>,
) -> bool {
    &&& item.name@ == entry.display_name
    &&& text::option_view(item.description) == entry.description
    &&& item.is_current == (entry.selector == current)
    &&& item.dismiss_on_select
    &&& item.search_value@ == entry.selector
    &&& match item.action {
        PetAction::Disable => entry.selector == disabled,
        PetAction::Select(id) => entry.selector != disabled && id@ == entry.selector,
    }
}

/// The sort keys of choices.
pub open spec fn name_keys(entries: Seq<EntryView>) -> Seq<order::KeyView> {
    Seq::new(entries.len(), |i: int| order::name_key(entries[i].display_name))
}

/// Whether items are the choices at positions that are in the order of their names.
pub open spec fn is_menu(
    items: Seq<PetItem>,
    entries: Seq<EntryView>,
    positions: Seq<usize>,
    current: Seq<char>,
    disabled: Seq<char>,
) -> bool {
    &&& items.len() == entries.len()
    &&& order::is_arrangement(positions, entries.len() as int)
    &&& order::in_order(name_keys(entries), positions)
    &&& forall|a: int|
        0 <= a < items.len() ==> shows(
            #[trigger] items[a],
            entries[positions[a] as int],
            current,
            disabled,
        )
}

/// Whether items are the choices, in the order of their names.
pub open spec fn is_sorted_menu(
    items: Seq<PetItem>,
    entries: Seq<EntryView>,
    current: Seq<char>,
    disabled: Seq<char>,
) -> bool {
    exists|positions: Seq<usize>| #[trigger] is_menu(items, entries, positions, current, disabled)
}

/// The pet that is current.
pub open spec fn current_selector(current_pet: Option<&str>, ids: PetIds) -> Seq<char> {
    match current_pet {
        Some(c) => c@,
        None => ids.default_pet@,
    }
}

/// The last of the first `n` items that is current.
pub open spec fn last_current(items: Seq<PetItem>, n: int) -> Option<usize>
    decreases n,
{
    if n <= 0 {
        None
    } else if items[n - 1].is_current {
        Some((n - 1) as usize)
    } else {
        last_current(items, n - 1)
    }
}

/// The menu of choices by name, with the current pet selected.
pub fn build_pet_picker_params(
    current_pet: Option<&str>,
    ids: PetIds,
    entries: &[PetPickerEntry],
) -> (r: PetPickerParams)
    ensures
        is_sorted_menu(
            r.items@,
            entry_views(entries@),
            current_selector(current_pet, ids),
            ids.disabled@,
        ),
        r.initial_selected_idx == last_current(r.items@, r.items@.len() as int),
        r.title@ == "Select Pet"@,
        r.subtitle@ == "Choose a pet to wake in the terminal."@,
        r.search_placeholder@ == "Type to filter pets..."@,
        r.is_searchable,
{
    let current = match current_pet {
        Some(c) => c,
        None => ids.default_pet,
    };
    let ghost views = entry_views(entries@);
    let mut keys: Vec<order::SortKey> = Vec::new();
    let mut i: usize = 0;
    while i < entries.len()
        invariant
            i <= entries.len(),
            views == entry_views(entries@),
            order::key_views(keys@) == name_keys(views).take(i as int),
            keys@.len() == i,
        decreases entries.len() - i,
    {
        let ghost before = keys@;
        let key = order::SortKey {
            first: 0,
            second: 0,
            third: 0,
            name: text::chars_of(entries[i].display_name.as_str()),
        };
        keys.push(key);
        assert(order::key_views(keys@) =~= order::key_views(before).push(key@));
        assert(key@ == name_keys(views)[i as int]);
        assert(name_keys(views).take(i + 1) =~= name_keys(views).take(i as int).push(
            name_keys(views)[i as int],
        ));
        i = i + 1;
    }
    assert(name_keys(views).take(i as int) =~= name_keys(views));
    let positions = order::sorted_positions(keys.as_slice());
    let mut items: Vec<PetItem> = Vec::new();
    let mut initial: Option<usize> = None;
    let mut a: usize = 0;
    while a < positions.len()
        invariant
            a <= positions.len(),
            views == entry_views(entries@),
            order::is_arrangement(positions@, entries@.len() as int),
            items@.len() == a,
            initial == last_current(items@, a as int),
            forall|b: int|
                0 <= b < a ==> shows(
                    #[trigger] items@[b],
                    views[positions@[b] as int],
                    current@,
                    ids.disabled@,
                ),
        decreases positions.len() - a,
    {
        let entry = &entries[positions[a]];
        assert(views[positions@[a as int] as int] == entry@);
        let is_current = text::same_str(entry.selector.as_str(), current);
        let action = if text::same_str(entry.selector.as_str(), ids.disabled) {
            PetAction::Disable
        } else {
            PetAction::Select(entry.selector.clone())
        };
        let ghost before = items@;
        items.push(
            PetItem {
                name: entry.display_name.clone(),
                description: text::clone_option(&entry.description),
                is_current,
                dismiss_on_select: true,
                search_value: entry.selector.clone(),
                action,
            },
        );
        proof {
            lemma_last_current(before, items@, a as int);
        }
        if is_current {
            initial = Some(a);
        }
        a = a + 1;
    }
    assert(is_menu(items@, views, positions@, current@, ids.disabled@));
    PetPickerParams {
        title: "Select Pet".to_owned(),
        subtitle: "Choose a pet to wake in the terminal.".to_owned(),
        items,
        is_searchable: true,
        search_placeholder: "Type to filter pets...".to_owned(),
        initial_selected_idx: initial,
    }
}

proof fn lemma_last_current(a: Seq<PetItem>, b: Seq<PetItem>, n: int)
    requires
        0 <= n <= a.len(),
        n <= b.len(),
        forall|i: int| 0 <= i < n ==> a[i] == b[i],
    ensures
        last_current(a, n) == last_current(b, n),
    decreases n,
{
    if n > 0 {
        lemma_last_current(a, b, n - 1);
    }
}

/// Every pet that is installed with a manifest can be chosen, in order; what is installed under the
/// name that stands for no pet cannot.
pub proof fn every_installed_pet_is_listed(
    pets: Seq<InstalledPet>,
    disabled: Seq<char>,
    n: int,
    i: int,
)
    requires
        0 <= i < n <= pets.len(),
    ensures
        pets[i].has_manifest && pets[i].selector@ != disabled ==> installed_entries(
            pets,
            disabled,
            n,
        ).contains(entry_of(pets[i].selector@, pets[i].details)),
        installed_entries(pets, disabled, n).len() <= n,
        forall|k: int|
            0 <= k < installed_entries(pets, disabled, n).len() ==> (#[trigger] installed_entries(
                pets,
                disabled,
                n,
            )[k]).selector != disabled,
    decreases n,
{
    let before = installed_entries(pets, disabled, n - 1);
    let after = installed_entries(pets, disabled, n);
    let own = entry_of(pets[i].selector@, pets[i].details);
    if n > 1 {
        every_installed_pet_is_listed(pets, disabled, n - 1, if i < n - 1 {
            i
        } else {
            0
        });
    }
    if i < n - 1 && before.contains(own) {
        assert(after[before.index_of(own)] == own);
    }
    if after.len() > before.len() {
        assert(after[before.len() as int] == entry_of(pets[n - 1].selector@, pets[n - 1].details));
    }
    assert forall|k: int| 0 <= k < after.len() implies (#[trigger] after[k]).selector
        != disabled by {
        if k < before.len() {
            assert(after[k] == before[k]);
        }
    }
}

/// A pet is called what its files say, and by its own name where they say nothing.
pub proof fn pets_are_called_what_their_files_say(selector: Seq<char>, details: PetDetails)
    ensures
        entry_of(selector, None).display_name == selector,
        entry_of(selector, None).description is None,
        entry_of(selector, None).selector == selector,
        entry_of(selector, Some(details)).selector == selector,
        entry_of(selector, Some(details)).display_name == details.display_name@,
        details.description@.len() > 0 ==> entry_of(selector, Some(details)).description == Some(
            details.description@,
        ),
        details.description@.len() == 0 ==> entry_of(selector, Some(details)).description is None,
{
}

/// The menu begins with the pet that is shown by default, one more that comes along, and the choice
/// of none; what is installed follows.
pub proof fn the_choice_of_none_is_always_there(
    ids: PetIds,
    default_details: Option<PetDetails>,
    boba_details: Option<PetDetails>,
    installed: Seq<InstalledPet>,
)
    ensures
        ({
            let all = all_entries(ids, default_details, boba_details, installed);
            &&& all.len() >= 3
            &&& all[0].selector == ids.default_pet@
            &&& all[1].selector == "boba"@
            &&& all[2].selector == ids.disabled@
            &&& all.skip(3) == installed_entries(installed, ids.disabled@, installed.len() as int)
        }),
{
    let all = all_entries(ids, default_details, boba_details, installed);
    assert(all.skip(3) =~= installed_entries(
        installed,
        ids.disabled@,
        installed.len() as int,
    ));
}

/// The menu offers every entry once, and choosing it chooses that entry, or no pet.
pub proof fn menus_offer_every_entry(
    items: Seq<PetItem>,
    entries: Seq<EntryView>,
    current: Seq<char>,
    disabled: Seq<char>,
    e: usize,
)
    requires
        is_sorted_menu(items, entries, current, disabled),
        e < entries.len(),
    ensures
        items.len() == entries.len(),
        exists|a: int|
            0 <= a < items.len() && (#[trigger] items[a]).name@ == entries[e as int].display_name
                && items[a].search_value@ == entries[e as int].selector && (items[a].is_current <==> entries[e as int].selector
                == current) && (items[a].action is Disable <==> entries[e as int].selector == disabled) && (
            items[a].action matches PetAction::Select(id) ==> id@ == entries[e as int].selector),
{
    let positions = choose|positions: Seq<usize>| #[trigger]
        is_menu(items, entries, positions, current, disabled);
    order::arrangements_leave_nothing_out(positions, entries.len() as int, e);
    let a = positions.index_of(e);
    assert(shows(items[a], entries[positions[a] as int], current, disabled));
}

/// The menu opens at the pet that is current, and nowhere if none of it is.
pub proof fn menus_open_at_the_current_pet(items: Seq<PetItem>, n: int)
    requires
        0 <= n <= items.len() <= usize::MAX,
    ensures
        match last_current(items, n) {
            Some(i) => i < n && items[i as int].is_current && forall|j: int|
                i < j < n ==> !(#[trigger] items[j]).is_current,
            None => forall|j: int| 0 <= j < n ==> !(#[trigger] items[j]).is_current,
        },
    decreases n,
{
    if n > 0 && !items[n - 1].is_current {
        menus_open_at_the_current_pet(items, n - 1);
    }
}

} // verus!
