//! Importing endpoints from an OpenAPI or Postman document: what happens to
//! each imported endpoint (skip, overwrite, create), the folders made for
//! their groups, and the messages reported at the end.
//!
//! Parsing the document and writing to the database are the caller's; this
//! module decides what is written.

use vstd::prelude::*;
use crate::client::cat;
use crate::model::HttpMethod;
use crate::text::{decimal, decimal_string, str_eq};

verus! {

/// Reported when no project is selected.
pub const NO_PROJECT_MESSAGE: &'static str = "未选择项目";

/// Reported when the document holds no endpoint.
pub const EMPTY_IMPORT_MESSAGE: &'static str = "文档中没有可导入的接口";

/// What to do with an imported endpoint whose method and path already exist.
#[derive(PartialEq, Eq, Structural, Clone, Copy, Debug)]
pub enum ConflictStrategy {
    /// Leave the existing endpoint alone.
    Skip,
    /// Replace the existing endpoint's content.
    Overwrite,
    /// Create a copy next to it.
    Duplicate,
}

/// What the plan needs of an imported endpoint.
pub struct ImportItem {
    pub name: String,
    pub method: HttpMethod,
    pub path: String,
    /// Group (OpenAPI tag, Postman folder) to file it under.
    pub folder_hint: Option<String>,
}

/// What happens to one imported endpoint.
pub enum ImportAction {
    /// Nothing: an endpoint with its method and path exists.
    Skip,
    /// Overwrite the existing endpoint at this position.
    Overwrite { index: usize },
    /// Create an endpoint with this name.
    Create { name: String },
}

/// Mathematical value of an [`ImportAction`].
pub enum ImportActionView {
    Skip,
    Overwrite { index: int },
    Create { name: Seq<char> },
}

impl View for ImportAction {
    type V = ImportActionView;

    open spec fn view(&self) -> ImportActionView {
        match self {
            ImportAction::Skip => ImportActionView::Skip,
            ImportAction::Overwrite { index } => ImportActionView::Overwrite { index: *index as int },
            ImportAction::Create { name } => ImportActionView::Create { name: name@ },
        }
    }
}

/// Position of the first existing endpoint with this method and path, from
/// `i`, or the number of endpoints.
pub open spec fn first_conflict(existing: Seq<(HttpMethod, String)>, method: HttpMethod, path: Seq<char>, i: int) -> int
    decreases existing.len() - i,
{
    if i >= existing.len() {
        existing.len() as int
    } else if existing[i].0 == method && existing[i].1@ == path {
        i
    } else {
        first_conflict(existing, method, path, i + 1)
    }
}

/// The action for one item: without a conflict it is created under its own
/// name; with one it is skipped, overwrites the first match, or is created
/// as `name (副本)`, as the strategy says.
pub open spec fn plan_spec(existing: Seq<(HttpMethod, String)>, item: ImportItem, strategy: ConflictStrategy) -> ImportActionView {
    let k = first_conflict(existing, item.method, item.path@, 0);
    if k < existing.len() {
        match strategy {
            ConflictStrategy::Skip => ImportActionView::Skip,
            ConflictStrategy::Overwrite => ImportActionView::Overwrite { index: k },
            ConflictStrategy::Duplicate => ImportActionView::Create { name: item.name@ + " (副本)"@ },
        }
    } else {
        ImportActionView::Create { name: item.name@ }
    }
}

fn find_conflict(existing: &Vec<(HttpMethod, String)>, method: HttpMethod, path: &str) -> (r: usize)
    ensures
        r as int == first_conflict(existing@, method, path@, 0),
        r <= existing@.len(),
{
    let mut i: usize = 0;
    while i < existing.len()
        invariant
            i <= existing@.len(),
            first_conflict(existing@, method, path@, 0) == first_conflict(existing@, method, path@, i as int),
        decreases existing.len() - i,
    {
        if existing[i].0 == method && str_eq(existing[i].1.as_str(), path) {
            return i;
        }
        i = i + 1;
    }
    i
}

/// Decide, item by item, what the import does; conflicts are looked up among
/// the endpoints that existed before the import.
pub fn plan_import(existing: &Vec<(HttpMethod, String)>, items: &Vec<ImportItem>, strategy: ConflictStrategy) -> (r: Vec<ImportAction>)
    ensures
        r@.len() == items@.len(),
        forall|i: int| 0 <= i < items@.len() ==> (#[trigger] r@[i])@ == plan_spec(existing@, items@[i], strategy),
{
    let mut out: Vec<ImportAction> = Vec::new();
    let mut i: usize = 0;
    while i < items.len()
        invariant
            i <= items@.len(),
            out@.len() == i,
            forall|j: int| 0 <= j < i ==> (#[trigger] out@[j])@ == plan_spec(existing@, items@[j], strategy),
        decreases items.len() - i,
    {
        let item = &items[i];
        let k = find_conflict(existing, item.method, item.path.as_str());
        let action = if k < existing.len() {
            match strategy {
                ConflictStrategy::Skip => ImportAction::Skip,
                ConflictStrategy::Overwrite => ImportAction::Overwrite { index: k },
                ConflictStrategy::Duplicate => ImportAction::Create { name: cat(item.name.as_str(), " (副本)") },
            }
        } else {
            ImportAction::Create { name: item.name.clone() }
        };
        out.push(action);
        i = i + 1;
    }
    out
}

proof fn lemma_first_conflict(existing: Seq<(HttpMethod, String)>, method: HttpMethod, path: Seq<char>, i: int)
    requires
        0 <= i <= existing.len(),
    ensures
        i <= first_conflict(existing, method, path, i) <= existing.len(),
        first_conflict(existing, method, path, i) < existing.len() ==> existing[first_conflict(
            existing,
            method,
            path,
            i,
        )].0 == method && existing[first_conflict(existing, method, path, i)].1@ == path,
        forall|j: int|
            i <= j < first_conflict(existing, method, path, i) ==> !(#[trigger] existing[j].0 == method
                && existing[j].1@ == path),
    decreases existing.len() - i,
{
    if i < existing.len() && !(existing[i].0 == method && existing[i].1@ == path) {
        lemma_first_conflict(existing, method, path, i + 1);
    }
}

/// An overwrite targets the first existing endpoint with the item's method
/// and path; a skip happens only under the skip strategy and with such an
/// endpoint; an item keeps its own name exactly when nothing conflicts.
pub proof fn law_plan_targets_first_conflict(
    existing: Seq<(HttpMethod, String)>,
    item: ImportItem,
    strategy: ConflictStrategy,
)
    ensures
        plan_spec(existing, item, strategy) matches ImportActionView::Overwrite { index } ==> {
            &&& 0 <= index < existing.len()
            &&& existing[index].0 == item.method && existing[index].1@ == item.path@
            &&& forall|j: int| 0 <= j < index ==> !(#[trigger] existing[j].0 == item.method && existing[j].1@ == item.path@)
        },
        plan_spec(existing, item, strategy) is Skip ==> strategy == ConflictStrategy::Skip && exists|j: int|
            0 <= j < existing.len() && #[trigger] existing[j].0 == item.method && existing[j].1@ == item.path@,
        (plan_spec(existing, item, strategy) == ImportActionView::Create { name: item.name@ }) <==> !exists|j: int|
            0 <= j < existing.len() && #[trigger] existing[j].0 == item.method && existing[j].1@ == item.path@,
{
    lemma_first_conflict(existing, item.method, item.path@, 0);
    let k = first_conflict(existing, item.method, item.path@, 0);
    if k < existing.len() {
        assert(existing[k].0 == item.method && existing[k].1@ == item.path@);
        reveal_strlit(" (副本)");
        assert((item.name@ + " (副本)"@).len() > item.name@.len());
    }
}

/// Folders made for groups during an import: a group's folder is made once
/// and then reused.
pub struct FolderCache {
    entries: Vec<(String, u128)>,
}

/// Folder of a group in a list of (group, folder) entries: the first entry's.
pub open spec fn hint_lookup(s: Seq<(Seq<char>, u128)>, hint: Seq<char>) -> Option<u128>
    decreases s.len(),
{
    if s.len() == 0 {
        None
    } else if s[0].0 == hint {
        Some(s[0].1)
    } else {
        hint_lookup(s.drop_first(), hint)
    }
}

impl View for FolderCache {
    type V = Seq<(Seq<char>, u128)>;

    closed spec fn view(&self) -> Seq<(Seq<char>, u128)> {
        self.entries@.map_values(|e: (String, u128)| (e.0@, e.1))
    }
}

/// What to do about an item's folder.
pub enum FolderStep {
    /// The item has no group: file it at the top level.
    NoFolder,
    /// File it in this folder, made earlier for its group.
    Use(u128),
    /// Make a folder with this name first.
    Create(String),
}

impl FolderCache {
    /// No folder made yet.
    pub fn new() -> (r: FolderCache)
        ensures
            r@ == Seq::<(Seq<char>, u128)>::empty(),
    {
        let r = FolderCache { entries: Vec::new() };
        assert(r@ =~= Seq::<(Seq<char>, u128)>::empty());
        r
    }

    /// The folder to file an item with this group under.
    pub fn folder_step(&self, hint: Option<&str>) -> (r: FolderStep)
        ensures
            hint is None ==> r is NoFolder,
            hint is Some ==> match hint_lookup(self@, hint.unwrap()@) {
                Some(id) => r == FolderStep::Use(id),
                None => r matches FolderStep::Create(name) && name@ == hint.unwrap()@,
            },
    {
        match hint {
            None => FolderStep::NoFolder,
            Some(h) => {
                let mut i: usize = 0;
                let ghost all = self@;
                assert(all.skip(0) =~= all);
                while i < self.entries.len()
                    invariant
                        hint == Some(h),
                        i <= self.entries@.len(),
                        all == self@,
                        all.len() == self.entries@.len(),
                        hint_lookup(all, h@) == hint_lookup(all.skip(i as int), h@),
                    decreases self.entries.len() - i,
                {
                    proof {
                        assert(all.skip(i as int)[0] == all[i as int]);
                        assert(all.skip(i as int).drop_first() =~= all.skip(i + 1));
                    }
                    assert(all[i as int] == (self.entries@[i as int].0@, self.entries@[i as int].1));
                    if str_eq(self.entries[i].0.as_str(), h) {
                        assert(all.skip(i as int)[0].0 == h@);
                        assert(hint_lookup(all.skip(i as int), h@) == Some(all.skip(i as int)[0].1));
                        let id = self.entries[i].1;
                        assert(hint_lookup(self@, h@) == Some(id));
                        return FolderStep::Use(id);
                    }
                    i = i + 1;
                }
                FolderStep::Create(h.to_owned())
            },
        }
    }

    /// Remember the folder made for a group.
    pub fn remember(&mut self, hint: &str, id: u128)
        ensures
            final(self)@ == old(self)@.push((hint@, id)),
    {
        let ghost before = self@;
        self.entries.push((hint.to_owned(), id));
        assert(self@ =~= before.push((hint@, id)));
    }
}

/// Once a group's folder is remembered, later items of that group use it;
/// remembering never changes the folder of a group already known.
pub proof fn law_folder_made_once(s: Seq<(Seq<char>, u128)>, hint: Seq<char>, id: u128, other: Seq<char>)
    ensures
        hint_lookup(s, hint) is None ==> hint_lookup(s.push((hint, id)), hint) == Some(id),
        hint_lookup(s, other) is Some ==> hint_lookup(s.push((hint, id)), other) == hint_lookup(s, other),
        other != hint ==> hint_lookup(s.push((hint, id)), other) == hint_lookup(s, other),
    decreases s.len(),
{
    if s.len() > 0 {
        assert(s.push((hint, id))[0] == s[0]);
        assert(s.push((hint, id)).drop_first() =~= s.drop_first().push((hint, id)));
        law_folder_made_once(s.drop_first(), hint, id, other);
    } else {
        assert(s.push((hint, id))[0] == (hint, id));
        assert(s.push((hint, id)).drop_first() =~= Seq::<(Seq<char>, u128)>::empty());
        assert(hint_lookup(Seq::<(Seq<char>, u128)>::empty(), other) is None);
    }
}

/// The message shown when the import is done.
pub fn import_summary(label: &str, created: usize, updated: usize, skipped: usize, count: usize) -> (r: String)
    ensures
        r@ == "导入完成（"@ + label@ + "）：新建 "@ + decimal(created as nat) + "，覆盖 "@ + decimal(
            updated as nat,
        ) + "，跳过 "@ + decimal(skipped as nat) + "（共 "@ + decimal(count as nat) + " 个接口）"@,
{
    let a = cat("导入完成（", label);
    let b = cat(a.as_str(), "）：新建 ");
    let c = cat(b.as_str(), decimal_string(created as u64).as_str());
    let d = cat(c.as_str(), "，覆盖 ");
    let e = cat(d.as_str(), decimal_string(updated as u64).as_str());
    let f = cat(e.as_str(), "，跳过 ");
    let g = cat(f.as_str(), decimal_string(skipped as u64).as_str());
    let h = cat(g.as_str(), "（共 ");
    let i = cat(h.as_str(), decimal_string(count as u64).as_str());
    cat(i.as_str(), " 个接口）")
}

/// The entry the import adds to the recent-steps log.
pub fn import_step_text(label: &str, created: usize, updated: usize, skipped: usize) -> (r: String)
    ensures
        r@ == "导入 OpenAPI（"@ + label@ + "）：新建 "@ + decimal(created as nat) + "/覆盖 "@ + decimal(
            updated as nat,
        ) + "/跳过 "@ + decimal(skipped as nat),
{
    let a = cat("导入 OpenAPI（", label);
    let b = cat(a.as_str(), "）：新建 ");
    let c = cat(b.as_str(), decimal_string(created as u64).as_str());
    let d = cat(c.as_str(), "/覆盖 ");
    let e = cat(d.as_str(), decimal_string(updated as u64).as_str());
    let f = cat(e.as_str(), "/跳过 ");
    cat(f.as_str(), decimal_string(skipped as u64).as_str())
}

} // verus!
