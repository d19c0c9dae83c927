//! The application inventory of the inspected device: what the bridge tool's
//! output is read as, and the state that it updates.
use vstd::prelude::*;
use vstd::string::StringExecFns;
use crate::order::{is_folded_sort_of, sort_folded, texts};
use crate::text::{
    chars_of, contains_chars, first_word, first_word_chars, has_substring, lines_of, lower_of,
    lowercase, split_lines, starts_with, strip_prefix, strip_prefix_chars, trim, trim_chars,
};

verus! {

/// A connected device: its model name and its connection identifier.
pub struct DeviceDescriptor {
    pub model: String,
    pub id: String,
}

/// What an uninstall request came to, read from the tool's output.
pub enum RemovalOutcome {
    /// The tool reported success.
    Removed,
    /// The tool did not report success; its output is kept for diagnosis.
    Failed(String),
}

/// The package names listed by `pm list packages`: each line of the output
/// without its leading `package:` marker.
pub open spec fn package_names(output: Seq<char>) -> Seq<Seq<char>> {
    lines_of(output).map_values(|l: Seq<char>| strip_prefix(l, "package:"@))
}

/// The line of `devices` output that names a connected device: the line
/// after the header, where it mentions `device`.
pub open spec fn device_line(output: Seq<char>) -> Option<Seq<char>> {
    let ls = lines_of(output);
    if ls.len() > 1 && has_substring(ls[1], "device"@) {
        Some(ls[1])
    } else {
        None
    }
}

/// The connection identifier of the connected device, if any.
pub open spec fn connected_device_id(output: Seq<char>) -> Option<Seq<char>> {
    match device_line(output) {
        Some(l) => Some(first_word(l)),
        None => None,
    }
}

/// `a` mentions `q`, ignoring case.
pub open spec fn matches_query(a: Seq<char>, q: Seq<char>) -> bool {
    has_substring(lower_of(a), lower_of(q))
}

/// The items of `apps` that mention `q`, ignoring case, in their order.
pub open spec fn filtered(apps: Seq<Seq<char>>, q: Seq<char>) -> Seq<Seq<char>> {
    apps.filter(|a: Seq<char>| matches_query(a, q))
}

/// The package names listed in a `pm list packages` output, in the order
/// listed.
pub fn parse_package_names(output: &str) -> (r: Vec<String>)
    ensures
        texts(r@) == package_names(output@),
{
    let chars = chars_of(output);
    let lines = split_lines(&chars);
    let marker = chars_of("package:");
    let mut r: Vec<String> = Vec::new();
    for i in 0..lines.len()
        invariant
            lines@.map_values(|v: Vec<char>| v@) == lines_of(output@),
            marker@ == "package:"@,
            r@.len() == i,
            forall|t: int| 0 <= t < i ==> #[trigger] r@[t]@ == strip_prefix(lines@[t]@, marker@),
    {
        r.push(strip_prefix_chars(&lines[i], &marker));
    }
    assert(texts(r@) =~= package_names(output@));
    r
}

/// How the tool's output to an uninstall request reads: success where it
/// mentions `Success`.
pub fn removal_outcome(output: &str) -> (r: RemovalOutcome)
    ensures
        match r {
            RemovalOutcome::Removed => has_substring(output@, "Success"@),
            RemovalOutcome::Failed(text) => !has_substring(output@, "Success"@) && text@ == output@,
        },
{
    let chars = chars_of(output);
    let marker = chars_of("Success");
    if contains_chars(&chars, &marker) {
        RemovalOutcome::Removed
    } else {
        RemovalOutcome::Failed(String::from_str(output))
    }
}

/// The application inventory of a device, and the device last found
/// connected.
pub struct ADBAppManager {
    all_apps: Vec<String>,
    device: Option<DeviceDescriptor>,
}

impl Default for ADBAppManager {
    /// A manager with no applications and no device.
    fn default() -> (r: Self)
        ensures
            r.inventory().len() == 0,
            r.connected() is None,
    {
        ADBAppManager::new()
    }
}

impl ADBAppManager {
    /// The package names held, in their order.
    pub closed spec fn inventory(&self) -> Seq<Seq<char>> {
        texts(self.all_apps@)
    }

    /// The device last found connected.
    pub closed spec fn connected(&self) -> Option<DeviceDescriptor> {
        self.device
    }

    /// A manager with no applications and no device.
    pub fn new() -> (r: Self)
        ensures
            r.inventory().len() == 0,
            r.connected() is None,
    {
        ADBAppManager { all_apps: Vec::new(), device: None }
    }

    /// The applications of the last refresh, in case-insensitive order.
    pub fn apps(&self) -> (r: &Vec<String>)
        ensures
            texts(r@) == self.inventory(),
    {
        &self.all_apps
    }

    /// The device last found connected.
    pub fn device(&self) -> (r: &Option<DeviceDescriptor>)
        ensures
            *r == self.connected(),
    {
        &self.device
    }

    /// Reads the output of `devices`. Where a device is connected, returns its
    /// connection identifier: its model is to be read next. Where none is,
    /// forgets the device.
    pub fn check_device_connection(&mut self, devices_output: &str) -> (r: Option<String>)
        ensures
            match r {
                Some(id) => connected_device_id(devices_output@) == Some(id@),
                None => connected_device_id(devices_output@) is None,
            },
            final(self).inventory() == old(self).inventory(),
            r is Some ==> final(self).connected() == old(self).connected(),
            r is None ==> final(self).connected() is None,
    {
        let chars = chars_of(devices_output);
        let lines = split_lines(&chars);
        let marker = chars_of("device");
        assert(lines@.len() == lines_of(devices_output@).len());
        if lines.len() > 1 && contains_chars(&lines[1], &marker) {
            assert(lines@[1]@ == lines_of(devices_output@)[1]);
            Some(first_word_chars(&lines[1]))
        } else {
            if lines.len() > 1 {
                assert(lines@[1]@ == lines_of(devices_output@)[1]);
            }
            self.device = None;
            None
        }
    }

    /// Records the device with connection identifier `device_id` once the
    /// output of reading its model has come; the inventory is to be refreshed
    /// next.
    pub fn record_device(&mut self, device_id: String, model_output: &str) -> (r: DeviceDescriptor)
        ensures
            r.model@ == trim(model_output@),
            r.id == device_id,
            final(self).connected() == Some(r),
            final(self).inventory() == old(self).inventory(),
    {
        let model = trim_chars(&chars_of(model_output));
        self.device = Some(DeviceDescriptor { model: model.clone(), id: device_id.clone() });
        DeviceDescriptor { model, id: device_id }
    }

    /// Replaces the inventory with the packages of a `pm list packages`
    /// output, sorted case-insensitively, and returns it.
    pub fn list_installed_apps(&mut self, packages_output: &str) -> (r: Vec<String>)
        ensures
            is_folded_sort_of(texts(r@), package_names(packages_output@)),
            final(self).inventory() == texts(r@),
            final(self).connected() == old(self).connected(),
    {
        let sorted = sort_folded(parse_package_names(packages_output));
        let mut copy: Vec<String> = Vec::new();
        for i in 0..sorted.len()
            invariant
                copy@.len() == i,
                forall|t: int| 0 <= t < i ==> #[trigger] copy@[t] == sorted@[t],
        {
            copy.push(sorted[i].clone());
        }
        assert(texts(copy@) =~= texts(sorted@));
        self.all_apps = copy;
        sorted
    }

    /// The applications that mention `query`, ignoring case, in inventory
    /// order. The inventory is left as it is.
    pub fn filter_apps(&self, query: &str) -> (r: Vec<String>)
        ensures
            texts(r@) == filtered(self.inventory(), query@),
            query@.len() == 0 ==> texts(r@) == self.inventory(),
    {
        let folded_query = chars_of(lowercase(query).as_str());
        let ghost apps = self.inventory();
        let mut folded_apps: Vec<Vec<char>> = Vec::new();
        for i in 0..self.all_apps.len()
            invariant
                apps == texts(self.all_apps@),
                folded_apps@.len() == i,
                forall|t: int| 0 <= t < i ==> #[trigger] folded_apps@[t]@ == lower_of(apps[t]),
        {
            folded_apps.push(chars_of(lowercase(self.all_apps[i].as_str()).as_str()));
        }
        let r = filter_folded(&self.all_apps, &folded_apps, &folded_query);
        proof {
            lemma_select_matching_is_filtered(
                apps,
                folded_apps@.map_values(|v: Vec<char>| v@),
                query@,
            );
            if query@.len() == 0 {
                lemma_filter_everything(apps, query@);
            }
        }
        r
    }
}

/// The items of `apps` whose folded form contains `q`, in their order; the
/// folded form of `apps[i]` is `folded[i]`.
pub open spec fn select_matching(
    apps: Seq<Seq<char>>,
    folded: Seq<Seq<char>>,
    q: Seq<char>,
) -> Seq<Seq<char>>
    decreases apps.len(),
{
    if apps.len() == 0 {
        apps
    } else {
        let prev = select_matching(apps.drop_last(), folded, q);
        if has_substring(folded[apps.len() - 1], q) {
            prev.push(apps.last())
        } else {
            prev
        }
    }
}

/// The applications whose folded form contains `folded_query`, in their
/// order; `folded_apps[i]` is the folded form of `apps[i]`.
pub fn filter_folded(apps: &Vec<String>, folded_apps: &Vec<Vec<char>>, folded_query: &Vec<char>) -> (r: Vec<String>)
    requires
        folded_apps@.len() == apps@.len(),
    ensures
        texts(r@) == select_matching(
            texts(apps@),
            folded_apps@.map_values(|v: Vec<char>| v@),
            folded_query@,
        ),
{
    let ghost all = texts(apps@);
    let ghost fs = folded_apps@.map_values(|v: Vec<char>| v@);
    let mut r: Vec<String> = Vec::new();
    assert(all.take(0) =~= Seq::<Seq<char>>::empty());
    for i in 0..apps.len()
        invariant
            all == texts(apps@),
            fs == folded_apps@.map_values(|v: Vec<char>| v@),
            folded_apps@.len() == apps@.len(),
            texts(r@) == select_matching(all.take(i as int), fs, folded_query@),
    {
        assert(all.take(i + 1).drop_last() =~= all.take(i as int));
        if contains_chars(&folded_apps[i], folded_query) {
            r.push(apps[i].clone());
            assert(texts(r@) =~= select_matching(all.take(i as int), fs, folded_query@).push(
                all[i as int],
            ));
        }
    }
    assert(all.take(all.len() as int) =~= all);
    r
}

/// Selecting by folded forms that are the lowercase of each application is
/// filtering by the query, ignoring case.
pub proof fn lemma_select_matching_is_filtered(
    apps: Seq<Seq<char>>,
    folded: Seq<Seq<char>>,
    q: Seq<char>,
)
    requires
        folded.len() >= apps.len(),
        forall|t: int| 0 <= t < apps.len() ==> #[trigger] folded[t] == lower_of(apps[t]),
    ensures
        select_matching(apps, folded, lower_of(q)) == filtered(apps, q),
    decreases apps.len(),
{
    reveal(Seq::filter);
    if apps.len() > 0 {
        lemma_select_matching_is_filtered(apps.drop_last(), folded, q);
        assert(folded[apps.len() - 1] == lower_of(apps.last()));
    }
}

/// `r` is `s` with some items left out and the others kept in order.
pub open spec fn is_subsequence(r: Seq<Seq<char>>, s: Seq<Seq<char>>) -> bool {
    exists|idx: Seq<int>|
        {
            &&& idx.len() == r.len()
            &&& forall|k: int| 0 <= k < r.len() ==> 0 <= #[trigger] idx[k] < s.len() && r[k] == s[idx[k]]
            &&& forall|k: int, l: int| 0 <= k < l < r.len() ==> idx[k] < idx[l]
        }
}

proof fn filter_positions(apps: Seq<Seq<char>>, q: Seq<char>) -> (idx: Seq<int>)
    ensures
        idx.len() == filtered(apps, q).len(),
        forall|k: int|
            0 <= k < idx.len() ==> 0 <= #[trigger] idx[k] < apps.len() && filtered(apps, q)[k]
                == apps[idx[k]],
        forall|k: int, l: int| 0 <= k < l < idx.len() ==> idx[k] < idx[l],
        forall|k: int| 0 <= k < idx.len() ==> matches_query(#[trigger] filtered(apps, q)[k], q),
    decreases apps.len(),
{
    reveal(Seq::filter);
    if apps.len() == 0 {
        Seq::empty()
    } else {
        let prev = filter_positions(apps.drop_last(), q);
        if matches_query(apps.last(), q) {
            prev.push(apps.len() - 1)
        } else {
            prev
        }
    }
}

/// Filtering keeps applications of the inventory, in inventory order, and
/// each application kept mentions the query, ignoring case.
pub proof fn lemma_filter_selects_in_order(apps: Seq<Seq<char>>, q: Seq<char>)
    ensures
        is_subsequence(filtered(apps, q), apps),
        forall|k: int|
            0 <= k < filtered(apps, q).len() ==> matches_query(#[trigger] filtered(apps, q)[k], q),
{
    let idx = filter_positions(apps, q);
    assert(idx.len() == filtered(apps, q).len());
}

/// After an uninstall, a refresh does not bring the package back into the
/// inventory where no line of the listing is `package:` followed by its
/// name, and no line is the name itself without the marker.
pub proof fn lemma_refresh_keeps_removed_out(
    listing: Seq<char>,
    refreshed: Seq<Seq<char>>,
    name: Seq<char>,
)
    requires
        is_folded_sort_of(refreshed, package_names(listing)),
        !lines_of(listing).contains("package:"@ + name),
        lines_of(listing).contains(name) ==> starts_with(name, "package:"@),
    ensures
        !refreshed.contains(name),
{
    let names = package_names(listing);
    let lines = lines_of(listing);
    let marker = "package:"@;
    let perm = choose|perm: Seq<int>|
        crate::order::rearranges(refreshed, names, perm) && crate::order::keeps_tie_order(
            refreshed,
            perm,
        );
    if refreshed.contains(name) {
        let k = choose|k: int| 0 <= k < refreshed.len() && refreshed[k] == name;
        let t = perm[k];
        assert(names[t] == name);
        let l = lines[t];
        assert(names[t] == strip_prefix(l, marker));
        if starts_with(l, marker) {
            assert(l =~= marker + name);
            assert(lines.contains(marker + name));
        } else {
            assert(l == name);
            assert(lines.contains(name));
        }
    }
}

/// A query that is empty once lowercased keeps every application.
pub proof fn lemma_filter_everything(apps: Seq<Seq<char>>, q: Seq<char>)
    requires
        lower_of(q).len() == 0,
    ensures
        filtered(apps, q) == apps,
    decreases apps.len(),
{
    reveal(Seq::filter);
    if apps.len() > 0 {
        lemma_filter_everything(apps.drop_last(), q);
        let a = lower_of(apps.last());
        assert(a.subrange(0, 0 + lower_of(q).len() as int) =~= lower_of(q));
        assert(matches_query(apps.last(), q));
        assert(apps.drop_last().push(apps.last()) =~= apps);
    }
}

} // verus!
