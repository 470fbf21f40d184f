//! Driver discovery over a directory listing.
//!
//! The caller enumerates the system binary directory and hands the raw names
//! in; this module keeps exactly the names that follow the driver naming
//! convention, derives a human-readable display name for each, and joins each
//! name with the directory to form the executable path. Reading the directory
//! itself is I/O and stays outside the crate.

use vstd::prelude::*;

use crate::strutil::str_eq;

verus! {

/// One discovered driver executable, with the selection flag the user toggles.
pub struct DriverEntry {
    pub display_name: String,
    pub executable_path: String,
    pub selected: bool,
}

/// The mathematical shape of a `DriverEntry`.
pub ghost struct DriverEntryView {
    pub display_name: Seq<char>,
    pub executable_path: Seq<char>,
    pub selected: bool,
}

impl View for DriverEntry {
    type V = DriverEntryView;

    open spec fn view(&self) -> DriverEntryView {
        DriverEntryView {
            display_name: self.display_name@,
            executable_path: self.executable_path@,
            selected: self.selected,
        }
    }
}

impl DeepView for DriverEntry {
    type V = DriverEntryView;

    open spec fn deep_view(&self) -> DriverEntryView {
        self.view()
    }
}

/// The name prefix every driver executable carries.
pub open spec fn name_prefix() -> Seq<char> {
    seq!['i', 'n', 'd', 'i']
}

/// The longer marker stripped off when deriving a display name.
pub open spec fn strip_marker() -> Seq<char> {
    seq!['i', 'n', 'd', 'i', '_']
}

/// A listed name counts as a driver when it carries the prefix and is not the
/// server launcher itself. The empty name a trailing listing entry leaves
/// behind carries no prefix, so it never counts.
pub open spec fn spec_is_driver_name(name: Seq<char>) -> bool {
    name_prefix().is_prefix_of(name) && name != "indiserver"@
}

/// The name with every leading copy of the driver marker removed.
pub open spec fn spec_strip_marker(name: Seq<char>) -> Seq<char>
    decreases name.len(),
{
    if strip_marker().is_prefix_of(name) {
        spec_strip_marker(name.skip(5))
    } else {
        name
    }
}

/// The name with every separator replaced by a space.
pub open spec fn spec_replace_separators(name: Seq<char>) -> Seq<char> {
    name.map_values(|c: char| if c == '_' { ' ' } else { c })
}

/// The display name: marker stripped, separators replaced by spaces.
pub open spec fn spec_display_of(name: Seq<char>) -> Seq<char> {
    spec_replace_separators(spec_strip_marker(name))
}

/// The full path of a listed name.
pub open spec fn spec_path_of(name: Seq<char>) -> Seq<char> {
    "/usr/bin/"@ + name
}

/// The entry a listed name becomes: display name, full path, unselected.
pub open spec fn spec_entry_of(name: Seq<char>) -> DriverEntryView {
    DriverEntryView {
        display_name: spec_display_of(name),
        executable_path: spec_path_of(name),
        selected: false,
    }
}

/// The entries of the driver names in the listing, in listing order.
pub open spec fn spec_discover(names: Seq<Seq<char>>) -> Seq<DriverEntryView>
    decreases names.len(),
{
    if names.len() == 0 {
        Seq::<DriverEntryView>::empty()
    } else {
        let init = spec_discover(names.drop_last());
        if spec_is_driver_name(names.last()) {
            init.push(spec_entry_of(names.last()))
        } else {
            init
        }
    }
}

/// How many names of the listing count as drivers.
pub open spec fn spec_match_count(names: Seq<Seq<char>>) -> nat
    decreases names.len(),
{
    if names.len() == 0 {
        0
    } else {
        spec_match_count(names.drop_last()) + if spec_is_driver_name(names.last()) {
            1nat
        } else {
            0nat
        }
    }
}

/// Discovery returns one entry per driver name of the listing — names that
/// lack the prefix, the reserved launcher name, and the empty name contribute
/// nothing — and every entry starts unselected.
pub proof fn lemma_discovery_count(names: Seq<Seq<char>>)
    ensures
        spec_discover(names).len() == spec_match_count(names),
        forall|i: int|
            0 <= i < spec_discover(names).len() ==> !(#[trigger] spec_discover(names)[i]).selected,
    decreases names.len(),
{
    if names.len() > 0 {
        lemma_discovery_count(names.drop_last());
    }
}

/// The display-name derivation changes nothing when applied a second time.
pub proof fn lemma_display_name_idempotent(name: Seq<char>)
    ensures
        spec_display_of(spec_display_of(name)) == spec_display_of(name),
{
    let once = spec_display_of(name);
    assert(forall|i: int| 0 <= i < once.len() ==> once[i] != '_') by {
        let stripped = spec_strip_marker(name);
        assert(forall|i: int|
            0 <= i < stripped.len() ==> spec_replace_separators(stripped)[i] != '_');
    }
    assert(!strip_marker().is_prefix_of(once)) by {
        if strip_marker().is_prefix_of(once) {
            assert(once[4] == strip_marker()[4]);
        }
    }
    assert(spec_strip_marker(once) == once);
    assert(spec_replace_separators(once) =~= once);
}

/// Does the name start with the driver marker `indi_`?
fn has_strip_marker(name: &str) -> (r: bool)
    ensures
        r == strip_marker().is_prefix_of(name@),
{
    let n = name.unicode_len();
    if n < 5 {
        return false;
    }
    let r = name.get_char(0) == 'i' && name.get_char(1) == 'n' && name.get_char(2) == 'd'
        && name.get_char(3) == 'i' && name.get_char(4) == '_';
    proof {
        if r {
            assert(strip_marker() =~= name@.subrange(0, 5));
        } else {
            if strip_marker().is_prefix_of(name@) {
                assert(name@[0] == 'i' && name@[1] == 'n' && name@[2] == 'd' && name@[3] == 'i'
                    && name@[4] == '_');
            }
        }
    }
    r
}

/// The name with every leading copy of the driver marker removed.
pub fn strip_driver_marker<'a>(name: &'a str) -> (r: &'a str)
    ensures
        r@ == spec_strip_marker(name@),
{
    let mut cur: &'a str = name;
    while has_strip_marker(cur)
        invariant
            spec_strip_marker(cur@) == spec_strip_marker(name@),
        decreases cur@.len(),
    {
        let next = cur.substring_char(5, cur.unicode_len());
        proof {
            assert(next@ =~= cur@.skip(5));
        }
        cur = next;
    }
    cur
}

/// The name with every separator replaced by a space.
pub fn replace_separators(name: &str) -> (r: String)
    ensures
        r@ == spec_replace_separators(name@),
{
    let n = name.unicode_len();
    let mut out = String::new();
    let mut i: usize = 0;
    while i < n
        invariant
            0 <= i <= n,
            n == name@.len(),
            out@ == spec_replace_separators(name@.take(i as int)),
        decreases n - i,
    {
        let c = name.get_char(i);
        if c == '_' {
            out.append(" ");
            proof {
                reveal_strlit(" ");
            }
        } else {
            let piece = name.substring_char(i, i + 1);
            out.append(piece);
            proof {
                assert(piece@ =~= seq![name@[i as int]]);
            }
        }
        proof {
            assert(out@ =~= spec_replace_separators(name@.take(i + 1)));
        }
        i += 1;
    }
    proof {
        assert(name@.take(n as int) =~= name@);
    }
    out
}

/// The display name a listed driver name is shown under.
pub fn derive_display_name(name: &str) -> (r: String)
    ensures
        r@ == spec_display_of(name@),
{
    let stripped = strip_driver_marker(name);
    replace_separators(stripped)
}

/// Does the listed name count as a driver?
pub fn is_driver_name(name: &str) -> (r: bool)
    ensures
        r == spec_is_driver_name(name@),
{
    let n = name.unicode_len();
    if n < 4 {
        proof {
            if name_prefix().is_prefix_of(name@) {
                assert(name@.len() >= 4);
            }
        }
        return false;
    }
    let prefixed = name.get_char(0) == 'i' && name.get_char(1) == 'n' && name.get_char(2) == 'd'
        && name.get_char(3) == 'i';
    proof {
        if prefixed {
            assert(name_prefix() =~= name@.subrange(0, 4));
        } else {
            if name_prefix().is_prefix_of(name@) {
                assert(name@[0] == 'i' && name@[1] == 'n' && name@[2] == 'd' && name@[3] == 'i');
            }
        }
    }
    if !prefixed {
        return false;
    }
    !str_eq(name, "indiserver")
}

/// Keep exactly the driver names of the listing, in order, each turned into an
/// unselected entry with its display name and full executable path.
pub fn fetch_indi_binaries(names: &Vec<String>) -> (r: Vec<DriverEntry>)
    ensures
        r.deep_view() == spec_discover(names.deep_view()),
{
    let mut out: Vec<DriverEntry> = Vec::new();
    let mut i: usize = 0;
    while i < names.len()
        invariant
            0 <= i <= names.len(),
            out.deep_view() == spec_discover(names.deep_view().take(i as int)),
        decreases names.len() - i,
    {
        let ghost views = names.deep_view();
        let name = &names[i];
        proof {
            assert(views[i as int] == name@);
            assert(views.take(i + 1).drop_last() =~= views.take(i as int));
            assert(views.take(i + 1).last() == views[i as int]);
        }
        if is_driver_name(name.as_str()) {
            let display = derive_display_name(name.as_str());
            let path = String::from_str("/usr/bin/").concat(name.as_str());
            let ghost before = out.deep_view();
            out.push(DriverEntry { display_name: display, executable_path: path, selected: false });
            proof {
                assert(out.deep_view() =~= before.push(spec_entry_of(name@)));
            }
        }
        i += 1;
    }
    proof {
        assert(names.deep_view().take(names.len() as int) =~= names.deep_view());
    }
    out
}

/// Is `x` one of the strings of `v`?
pub fn contains_string(v: &Vec<String>, x: &str) -> (r: bool)
    ensures
        r == v.deep_view().contains(x@),
{
    let mut i: usize = 0;
    while i < v.len()
        invariant
            0 <= i <= v.len(),
            forall|j: int| 0 <= j < i ==> v.deep_view()[j] != x@,
        decreases v.len() - i,
    {
        proof {
            assert(v.deep_view()[i as int] == v@[i as int]@);
        }
        if str_eq(v[i].as_str(), x) {
            return true;
        }
        i += 1;
    }
    false
}

/// The entries with every one whose path appears in `saved` marked selected;
/// names, paths, order and the already-selected flags are kept.
pub fn apply_saved_selection(entries: Vec<DriverEntry>, saved: &Vec<String>) -> (r: Vec<
    DriverEntry,
>)
    ensures
        r.deep_view().len() == entries.deep_view().len(),
        forall|i: int|
            0 <= i < entries.deep_view().len() ==> {
                let old_e = entries.deep_view()[i];
                let new_e = #[trigger] r.deep_view()[i];
                new_e.display_name == old_e.display_name && new_e.executable_path
                    == old_e.executable_path && new_e.selected == (old_e.selected
                    || saved.deep_view().contains(old_e.executable_path))
            },
{
    let mut out: Vec<DriverEntry> = Vec::new();
    let mut i: usize = 0;
    while i < entries.len()
        invariant
            0 <= i <= entries.len(),
            out.deep_view().len() == i,
            forall|j: int|
                0 <= j < i ==> {
                    let old_e = entries.deep_view()[j];
                    let new_e = #[trigger] out.deep_view()[j];
                    new_e.display_name == old_e.display_name && new_e.executable_path
                        == old_e.executable_path && new_e.selected == (old_e.selected
                        || saved.deep_view().contains(old_e.executable_path))
                },
        decreases entries.len() - i,
    {
        let e = &entries[i];
        let sel = e.selected || contains_string(saved, e.executable_path.as_str());
        let ghost before = out.deep_view();
        let ghost ev = DriverEntryView {
            display_name: entries.deep_view()[i as int].display_name,
            executable_path: entries.deep_view()[i as int].executable_path,
            selected: sel,
        };
        out.push(
            DriverEntry {
                display_name: e.display_name.clone(),
                executable_path: e.executable_path.clone(),
                selected: sel,
            },
        );
        proof {
            assert(out.deep_view() =~= before.push(ev));
        }
        i += 1;
    }
    out
}

/// The executable paths of the selected entries, in order.
pub open spec fn spec_selected_paths(entries: Seq<DriverEntryView>) -> Seq<Seq<char>>
    decreases entries.len(),
{
    if entries.len() == 0 {
        Seq::<Seq<char>>::empty()
    } else {
        let init = spec_selected_paths(entries.drop_last());
        if entries.last().selected {
            init.push(entries.last().executable_path)
        } else {
            init
        }
    }
}

/// The executable paths of the selected entries, in order.
pub fn selected_paths(entries: &Vec<DriverEntry>) -> (r: Vec<String>)
    ensures
        r.deep_view() == spec_selected_paths(entries.deep_view()),
{
    let mut out: Vec<String> = Vec::new();
    let mut i: usize = 0;
    while i < entries.len()
        invariant
            0 <= i <= entries.len(),
            out.deep_view() == spec_selected_paths(entries.deep_view().take(i as int)),
        decreases entries.len() - i,
    {
        let ghost views = entries.deep_view();
        proof {
            assert(views.take(i + 1).drop_last() =~= views.take(i as int));
            assert(views.take(i + 1).last() == views[i as int]);
        }
        let e = &entries[i];
        if e.selected {
            let ghost before = out.deep_view();
            out.push(e.executable_path.clone());
            proof {
                assert(out.deep_view() =~= before.push(views[i as int].executable_path));
            }
        }
        i += 1;
    }
    proof {
        assert(entries.deep_view().take(entries.len() as int) =~= entries.deep_view());
    }
    out
}

/// Is at least one entry selected?
pub fn any_selected(entries: &Vec<DriverEntry>) -> (r: bool)
    ensures
        r == exists|i: int|
            0 <= i < entries.deep_view().len() && (#[trigger] entries.deep_view()[i]).selected,
{
    let mut i: usize = 0;
    while i < entries.len()
        invariant
            0 <= i <= entries.len(),
            forall|j: int| 0 <= j < i ==> !(#[trigger] entries.deep_view()[j]).selected,
        decreases entries.len() - i,
    {
        if entries[i].selected {
            proof {
                assert(entries.deep_view()[i as int].selected);
            }
            return true;
        }
        i += 1;
    }
    false
}

/// Does `name` contain `filter` as a contiguous run of characters?
pub open spec fn spec_contains_sub(name: Seq<char>, filter: Seq<char>) -> bool {
    exists|k: int|
        0 <= k && k + filter.len() <= name.len() && #[trigger] name.subrange(k, k + filter.len())
            == filter
}

/// A name passes the filter when the filter is empty or occurs in the name.
pub open spec fn spec_matches_filter(name: Seq<char>, filter: Seq<char>) -> bool {
    filter.len() == 0 || spec_contains_sub(name, filter)
}

/// Should an entry with this display name be shown under this filter text?
pub fn name_matches_filter(name: &str, filter: &str) -> (r: bool)
    ensures
        r == spec_matches_filter(name@, filter@),
{
    let m = filter.unicode_len();
    if m == 0 {
        return true;
    }
    let n = name.unicode_len();
    if m > n {
        proof {
            if spec_contains_sub(name@, filter@) {
                let k = choose|k: int|
                    0 <= k && k + filter@.len() <= name@.len() && #[trigger] name@.subrange(
                        k,
                        k + filter@.len(),
                    ) == filter@;
            }
        }
        return false;
    }
    let mut k: usize = 0;
    while k <= n - m
        invariant
            0 <= k <= n - m + 1,
            m >= 1,
            m <= n,
            n == name@.len(),
            m == filter@.len(),
            forall|kk: int| 0 <= kk < k ==> #[trigger] name@.subrange(kk, kk + m) != filter@,
        decreases n - m + 1 - k,
    {
        let mut j: usize = 0;
        let mut hit = true;
        while j < m
            invariant
                0 <= j <= m,
                0 <= k <= n - m,
                n == name@.len(),
                m == filter@.len(),
                hit ==> forall|jj: int| 0 <= jj < j ==> name@[k + jj] == filter@[jj],
                !hit ==> name@.subrange(k as int, k + m) != filter@,
            decreases m - j,
        {
            if name.get_char(k + j) != filter.get_char(j) {
                proof {
                    assert(name@.subrange(k as int, k + m)[j as int] == name@[k + j]);
                }
                hit = false;
                j = m;
            } else {
                j += 1;
            }
        }
        if hit {
            proof {
                assert(name@.subrange(k as int, k + m) =~= filter@);
            }
            return true;
        }
        k += 1;
    }
    proof {
        if spec_contains_sub(name@, filter@) {
            let kk = choose|kk: int|
                0 <= kk && kk + filter@.len() <= name@.len() && #[trigger] name@.subrange(
                    kk,
                    kk + filter@.len(),
                ) == filter@;
            assert(name@.subrange(kk, kk + m) != filter@);
        }
    }
    false
}

} // verus!
