//! Templates, the store that holds them keyed by identifier, and the
//! resolved message a run produces.

use vstd::prelude::*;
use crate::errors::CliError;

verus! {

/// A named, reusable pattern for a commit title, body and branch-name
/// constraint, with the variables it declares, in declaration order.
#[derive(Debug)]
pub struct Template {
    pub label: String,
    pub description: String,
    pub vars: Vec<String>,
    pub branch_pattern: String,
    pub title: String,
    pub body: String,
}

/// The fully substituted title, body and branch pattern of one run.
pub struct ResolvedMessage {
    pub title: String,
    pub body: String,
    pub branch_pattern: String,
}

impl ResolvedMessage {
    /// The text handed to the commit command: title, a blank line, body.
    pub fn commit_message(&self) -> (r: String)
        ensures
            r@ == self.title@ + seq!['\n', '\n'] + self.body@,
    {
        let mut r = self.title.clone();
        proof {
            reveal_strlit("\n\n");
            assert("\n\n"@ =~= seq!['\n', '\n']);
        }
        r.append("\n\n");
        r.append(self.body.as_str());
        proof {
            assert(r@ =~= self.title@ + seq!['\n', '\n'] + self.body@);
        }
        r
    }
}

/// One store entry: a template under its unique identifier.
pub struct StoreEntry {
    pub id: String,
    pub template: Template,
}

/// The template that the first entry with identifier `id` holds, if any.
pub open spec fn lookup(entries: Seq<StoreEntry>, id: Seq<char>) -> Option<Template>
    decreases entries.len(),
{
    if entries.len() == 0 {
        None
    } else if entries[0].id@ == id {
        Some(entries[0].template)
    } else {
        lookup(entries.skip(1), id)
    }
}

/// The template of the first entry whose label is `label`, if any.
pub open spec fn lookup_label(entries: Seq<StoreEntry>, label: Seq<char>) -> Option<Template>
    decreases entries.len(),
{
    if entries.len() == 0 {
        None
    } else if entries[0].template.label@ == label {
        Some(entries[0].template)
    } else {
        lookup_label(entries.skip(1), label)
    }
}

/// The mapping from template identifier to template, keys unique, built once
/// at load time and read-only afterwards.
pub struct TemplateStore {
    entries: Vec<StoreEntry>,
}

impl View for TemplateStore {
    type V = Seq<StoreEntry>;

    closed spec fn view(&self) -> Seq<StoreEntry> {
        self.entries@
    }
}

proof fn lemma_lookup_update(entries: Seq<StoreEntry>, j: int, e: StoreEntry, id: Seq<char>)
    requires
        0 <= j < entries.len(),
        entries[j].id@ == e.id@,
        forall|a: int, b: int| 0 <= a < b < entries.len() ==> entries[a].id@ != entries[b].id@,
    ensures
        lookup(entries.update(j, e), id) == if id == e.id@ {
            Some(e.template)
        } else {
            lookup(entries, id)
        },
    decreases entries.len(),
{
    let upd = entries.update(j, e);
    if j == 0 {
        assert(upd[0] == e);
        if id == e.id@ {
        } else {
            assert(upd.skip(1) =~= entries.skip(1));
        }
    } else {
        assert(upd[0] == entries[0]);
        if entries[0].id@ == id {
            assert(entries[0].id@ != entries[j].id@);
        } else {
            assert(upd.skip(1) =~= entries.skip(1).update(j - 1, e));
            assert(entries.skip(1)[j - 1] == entries[j]);
            assert(forall|a: int, b: int|
                0 <= a < b < entries.skip(1).len() ==> entries.skip(1)[a].id@
                    != entries.skip(1)[b].id@);
            lemma_lookup_update(entries.skip(1), j - 1, e, id);
        }
    }
}

proof fn lemma_lookup_push(entries: Seq<StoreEntry>, e: StoreEntry, id: Seq<char>)
    ensures
        lookup(entries.push(e), id) == if lookup(entries, id) is Some {
            lookup(entries, id)
        } else if id == e.id@ {
            Some(e.template)
        } else {
            None
        },
    decreases entries.len(),
{
    let p = entries.push(e);
    if entries.len() == 0 {
        assert(p[0] == e);
        if id == e.id@ {
            assert(lookup(p, id) == Some(e.template));
        } else {
            assert(p.skip(1) =~= Seq::<StoreEntry>::empty());
            assert(lookup(p, id) is None);
        }
        assert(lookup(entries, id) is None);
    } else {
        assert(p[0] == entries[0]);
        if entries[0].id@ == id {
            assert(lookup(p, id) == Some(entries[0].template));
            assert(lookup(entries, id) == Some(entries[0].template));
        } else {
            assert(p.skip(1) =~= entries.skip(1).push(e));
            lemma_lookup_push(entries.skip(1), e, id);
            assert(lookup(p, id) == lookup(p.skip(1), id));
            assert(lookup(entries, id) == lookup(entries.skip(1), id));
        }
    }
}

impl TemplateStore {
    /// Identifiers are pairwise distinct.
    pub open spec fn wf(&self) -> bool {
        forall|a: int, b: int| 0 <= a < b < self@.len() ==> self@[a].id@ != self@[b].id@
    }

    /// An empty store.
    pub fn new() -> (r: TemplateStore)
        ensures
            r@ == Seq::<StoreEntry>::empty(),
            r.wf(),
    {
        TemplateStore { entries: Vec::new() }
    }

    /// How many templates the store holds.
    pub fn len(&self) -> (r: usize)
        ensures
            r == self@.len(),
    {
        self.entries.len()
    }

    /// Adds `t` under `id`; an entry already stored under `id` is replaced,
    /// every other entry is untouched.
    pub fn insert(&mut self, id: String, t: Template)
        requires
            old(self).wf(),
        ensures
            final(self).wf(),
            lookup(final(self)@, id@) == Some(t),
            forall|other: Seq<char>| other != id@ ==> #[trigger] lookup(final(self)@, other)
                == lookup(old(self)@, other),
    {
        let ghost entries0 = self.entries@;
        let mut j: usize = 0;
        while j < self.entries.len()
            invariant
                j <= self.entries@.len(),
                self.entries@ == entries0,
                entries0 == old(self)@,
                forall|a: int, b: int| 0 <= a < b < entries0.len() ==> entries0[a].id@
                    != entries0[b].id@,
                forall|k: int| 0 <= k < j ==> entries0[k].id@ != id@,
            decreases self.entries@.len() - j,
        {
            if self.entries[j].id.eq(&id) {
                let e = StoreEntry { id, template: t };
                self.entries.remove(j);
                self.entries.insert(j, e);
                proof {
                    assert(self.entries@ =~= entries0.update(j as int, e));
                    lemma_lookup_update(entries0, j as int, e, e.id@);
                    assert forall|other: Seq<char>| other != e.id@ implies #[trigger] lookup(
                        self.entries@,
                        other,
                    ) == lookup(entries0, other) by {
                        lemma_lookup_update(entries0, j as int, e, other);
                    }
                    assert(forall|k: int|
                        0 <= k < self.entries@.len() ==> self.entries@[k].id@ == entries0[k].id@);
                }
                return ;
            }
            j = j + 1;
        }
        let e = StoreEntry { id, template: t };
        self.entries.push(e);
        proof {
            lemma_no_match_lookup_none(entries0, e.id@);
            lemma_lookup_push(entries0, e, e.id@);
            assert forall|other: Seq<char>| other != e.id@ implies #[trigger] lookup(
                self.entries@,
                other,
            ) == lookup(entries0, other) by {
                lemma_lookup_push(entries0, e, other);
            }
            assert(forall|k: int|
                0 <= k < entries0.len() ==> self.entries@[k].id@ == entries0[k].id@);
            assert(self.entries@[entries0.len() as int].id@ == e.id@);
        }
    }

    /// The first template stored under `id`, if any.
    pub fn get<'a>(&'a self, id: &String) -> (r: Option<&'a Template>)
        ensures
            match r {
                Some(t) => lookup(self@, id@) == Some(*t),
                None => lookup(self@, id@) is None,
            },
    {
        let mut j: usize = 0;
        proof {
            assert(self.entries@.skip(0) =~= self.entries@);
        }
        while j < self.entries.len()
            invariant
                j <= self.entries@.len(),
                self@ == self.entries@,
                lookup(self.entries@, id@) == lookup(self.entries@.skip(j as int), id@),
                forall|k: int| 0 <= k < j ==> self.entries@[k].id@ != id@,
            decreases self.entries@.len() - j,
        {
            proof {
                assert(self.entries@.skip(j as int)[0] == self.entries@[j as int]);
            }
            if self.entries[j].id.eq(id) {
                return Some(&self.entries[j].template);
            }
            proof {
                assert(self.entries@.skip(j as int).skip(1) =~= self.entries@.skip(j + 1));
            }
            j = j + 1;
        }
        proof {
            assert(self.entries@.skip(self.entries@.len() as int) =~= Seq::<StoreEntry>::empty());
        }
        None
    }

    /// The first template whose label is `label`, if any.
    pub fn find_by_label<'a>(&'a self, label: &String) -> (r: Option<&'a Template>)
        ensures
            match r {
                Some(t) => lookup_label(self@, label@) == Some(*t),
                None => lookup_label(self@, label@) is None,
            },
    {
        let mut j: usize = 0;
        proof {
            assert(self.entries@.skip(0) =~= self.entries@);
        }
        while j < self.entries.len()
            invariant
                j <= self.entries@.len(),
                self@ == self.entries@,
                lookup_label(self.entries@, label@) == lookup_label(
                    self.entries@.skip(j as int),
                    label@,
                ),
            decreases self.entries@.len() - j,
        {
            proof {
                assert(self.entries@.skip(j as int)[0] == self.entries@[j as int]);
            }
            if self.entries[j].template.label.eq(label) {
                return Some(&self.entries[j].template);
            }
            proof {
                assert(self.entries@.skip(j as int).skip(1) =~= self.entries@.skip(j + 1));
            }
            j = j + 1;
        }
        proof {
            assert(self.entries@.skip(self.entries@.len() as int) =~= Seq::<StoreEntry>::empty());
        }
        None
    }

    /// The labels of all stored templates, in store order.
    pub fn labels(&self) -> (r: Vec<String>)
        ensures
            r@.len() == self@.len(),
            forall|i: int| 0 <= i < self@.len() ==> #[trigger] r@[i]@ == self@[i].template.label@,
    {
        let mut r: Vec<String> = Vec::new();
        let mut j: usize = 0;
        while j < self.entries.len()
            invariant
                j <= self.entries@.len(),
                self@ == self.entries@,
                r@.len() == j,
                forall|i: int| 0 <= i < j ==> #[trigger] r@[i]@ == self.entries@[i].template.label@,
            decreases self.entries@.len() - j,
        {
            r.push(self.entries[j].template.label.clone());
            j = j + 1;
        }
        r
    }
}

proof fn lemma_no_match_lookup_none(entries: Seq<StoreEntry>, id: Seq<char>)
    requires
        forall|k: int| 0 <= k < entries.len() ==> entries[k].id@ != id,
    ensures
        lookup(entries, id) is None,
    decreases entries.len(),
{
    if entries.len() > 0 {
        assert(forall|k: int|
            0 <= k < entries.skip(1).len() ==> entries.skip(1)[k].id@ != id);
        lemma_no_match_lookup_none(entries.skip(1), id);
    }
}

/// Looking up a template by identifier; absent identifiers are reported as
/// `TemplateNotFound`, never given a silent default.
pub fn select_direct<'a>(store: &'a TemplateStore, id: &String) -> (r: Result<
    &'a Template,
    CliError,
>)
    ensures
        r matches Ok(t) ==> lookup(store@, id@) == Some(*t),
        r is Err <==> lookup(store@, id@) is None,
        r matches Err(e) ==> e == CliError::TemplateNotFound,
{
    match store.get(id) {
        Some(t) => Ok(t),
        None => Err(CliError::TemplateNotFound),
    }
}

/// Looking up a template by its human-readable label, for the interactive
/// selection flow; an unknown label is `TemplateNotFound`.
pub fn select_by_label<'a>(store: &'a TemplateStore, label: &String) -> (r: Result<
    &'a Template,
    CliError,
>)
    ensures
        r matches Ok(t) ==> lookup_label(store@, label@) == Some(*t),
        r is Err <==> lookup_label(store@, label@) is None,
        r matches Err(e) ==> e == CliError::TemplateNotFound,
{
    match store.find_by_label(label) {
        Some(t) => Ok(t),
        None => Err(CliError::TemplateNotFound),
    }
}

} // verus!
