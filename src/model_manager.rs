//! A registry of named model handles: each name is loaded at most once,
//! concurrent requests for it wait on the same load, and a handle lives
//! while anyone holds it.
//!
//! The registry decides; the caller loads the model and reports back.
use vstd::prelude::*;

verus! {

/// The state of a registered model.
#[derive(Debug, Clone, Copy, PartialEq, Eq, Structural)]
pub enum ModelStatus {
    /// A load is in flight.
    Loading,
    /// The model is loaded and can be used.
    Ready,
}

/// What a caller of `get_llm` is to do next.
#[derive(Debug, Clone, Copy, PartialEq, Eq, Structural)]
pub enum Acquire {
    /// Load the model, then report with `load_finished`.
    Load,
    /// Another caller is loading it: wait for that load, then ask again.
    Wait,
    /// The model is ready; the caller now holds one more reference to it.
    Use,
}

/// A registered model: its name, its state and how many hold it.
pub struct ModelEntry {
    pub name: String,
    pub status: ModelStatus,
    pub holders: u64,
}

/// A registered model as seen in contracts.
pub type ModelView = (Seq<char>, ModelStatus, nat);

impl View for ModelEntry {
    type V = ModelView;

    open spec fn view(&self) -> ModelView {
        (self.name@, self.status, self.holders as nat)
    }
}

pub open spec fn model_views(v: Seq<ModelEntry>) -> Seq<ModelView> {
    v.map_values(|e: ModelEntry| e@)
}

/// Names are registered at most once.
pub open spec fn models_wf(s: Seq<ModelView>) -> bool {
    forall|i: int, j: int| 0 <= i < j < s.len() ==> (#[trigger] s[i]).0 != (#[trigger] s[j]).0
}

/// Whether `name` is registered.
pub open spec fn registered(s: Seq<ModelView>, name: Seq<char>) -> bool {
    exists|j: int| 0 <= j < s.len() && (#[trigger] s[j]).0 == name
}

/// The position of `name`, where it is registered.
pub open spec fn position_of(s: Seq<ModelView>, name: Seq<char>) -> int {
    choose|j: int| 0 <= j < s.len() && (#[trigger] s[j]).0 == name
}

/// What a request for `name` tells the caller, and the registry after it.
/// A model whose count of holders is at its limit turns callers away to wait.
pub open spec fn acquire(s: Seq<ModelView>, name: Seq<char>) -> (Acquire, Seq<ModelView>) {
    if !registered(s, name) {
        (Acquire::Load, s.push((name, ModelStatus::Loading, 0)))
    } else {
        let j = position_of(s, name);
        match s[j].1 {
            ModelStatus::Loading => (Acquire::Wait, s),
            ModelStatus::Ready => if s[j].2 < u64::MAX {
                (Acquire::Use, s.update(j, (name, ModelStatus::Ready, s[j].2 + 1)))
            } else {
                (Acquire::Wait, s)
            },
        }
    }
}

/// How many of `m` successive requests for `name` are told to load it.
pub open spec fn loads(s: Seq<ModelView>, name: Seq<char>, m: nat) -> nat
    decreases m,
{
    if m == 0 {
        0
    } else {
        let (a, t) = acquire(s, name);
        (if a == Acquire::Load {
            1nat
        } else {
            0nat
        }) + loads(t, name, (m - 1) as nat)
    }
}

/// Of any number of requests for one name, made while no load reports back,
/// at most one is told to load the model: exactly one where the name was not
/// registered, none where it was.
pub proof fn lemma_single_load(s: Seq<ModelView>, name: Seq<char>, m: nat)
    requires
        models_wf(s),
    ensures
        loads(s, name, m) == (if m > 0 && !registered(s, name) {
            1nat
        } else {
            0nat
        }),
    decreases m,
{
    if m > 0 {
        let (a, t) = acquire(s, name);
        if !registered(s, name) {
            assert(t[s.len() as int].0 == name);
            assert(registered(t, name));
            assert(models_wf(t));
            lemma_single_load(t, name, (m - 1) as nat);
        } else {
            let j = position_of(s, name);
            assert(t[j].0 == name);
            assert(registered(t, name));
            assert forall|i: int, k: int| 0 <= i < k < t.len() implies (#[trigger] t[i]).0 != (#[trigger] t[k]).0 by {
                assert(t[i].0 == s[i].0 && t[k].0 == s[k].0);
            }
            lemma_single_load(t, name, (m - 1) as nat);
        }
    }
}

/// The registry after the load of `name` reported back: a loaded model is
/// ready and held by its loader; a failed one is dropped, so that the next
/// request loads it anew. Nothing changes where `name` was not loading.
pub open spec fn finish_load(s: Seq<ModelView>, name: Seq<char>, ok: bool) -> Seq<ModelView> {
    if registered(s, name) && s[position_of(s, name)].1 == ModelStatus::Loading {
        let j = position_of(s, name);
        if ok {
            s.update(j, (name, ModelStatus::Ready, 1))
        } else {
            s.remove(j)
        }
    } else {
        s
    }
}

/// The registry after one holder of `name` let it go: the model is dropped
/// with its last holder. Nothing changes where `name` is not held.
pub open spec fn release_one(s: Seq<ModelView>, name: Seq<char>) -> Seq<ModelView> {
    if registered(s, name) && s[position_of(s, name)].1 == ModelStatus::Ready && s[position_of(s, name)].2 > 0 {
        let j = position_of(s, name);
        if s[j].2 == 1 {
            s.remove(j)
        } else {
            s.update(j, (name, ModelStatus::Ready, (s[j].2 - 1) as nat))
        }
    } else {
        s
    }
}

/// The registry of models.
pub struct ModelManager {
    entries: Vec<ModelEntry>,
}

impl View for ModelManager {
    type V = Seq<ModelView>;

    closed spec fn view(&self) -> Seq<ModelView> {
        model_views(self.entries@)
    }
}

impl ModelManager {
    pub open spec fn wf(&self) -> bool {
        models_wf(self@)
    }

    /// An empty registry.
    pub fn new() -> (r: Self)
        ensures
            r.wf(),
            r@.len() == 0,
    {
        let r = ModelManager { entries: Vec::new() };
        assert(r@ =~= Seq::<ModelView>::empty());
        r
    }

    /// Position of `name`, if registered.
    fn find(&self, name: &String) -> (r: Option<usize>)
        requires
            self.wf(),
        ensures
            r is None <==> !registered(self@, name@),
            r matches Some(j) ==> j == position_of(self@, name@) && j < self@.len(),
    {
        let mut i: usize = 0;
        while i < self.entries.len()
            invariant
                i <= self.entries.len(),
                self.wf(),
                forall|j: int| 0 <= j < i ==> (#[trigger] self@[j]).0 != name@,
            decreases self.entries.len() - i,
        {
            assert(self@[i as int] == self.entries@[i as int]@);
            if self.entries[i].name == *name {
                assert(self@[i as int].0 == name@);
                assert(registered(self@, name@));
                return Some(i);
            }
            i = i + 1;
        }
        None
    }

    /// A request for the model `name`. An unregistered name is registered as
    /// loading and its caller told to load it; a caller asking while it loads
    /// is told to wait; a ready model gains one holder.
    pub fn get_llm(&mut self, name: String) -> (r: Acquire)
        requires
            old(self).wf(),
        ensures
            final(self).wf(),
            (r, final(self)@) == acquire(old(self)@, name@),
    {
        match self.find(&name) {
            None => {
                let ghost before = self.entries@;
                self.entries.push(ModelEntry { name, status: ModelStatus::Loading, holders: 0 });
                assert(self@ =~= model_views(before).push(self.entries@[before.len() as int]@));
                Acquire::Load
            },
            Some(j) => {
                let status = self.entries[j].status;
                match status {
                    ModelStatus::Loading => Acquire::Wait,
                    ModelStatus::Ready => {
                        let holders = self.entries[j].holders;
                        if holders == u64::MAX {
                            return Acquire::Wait;
                        }
                        let ghost before = self@;
                        let e = ModelEntry { name, status: ModelStatus::Ready, holders: holders + 1 };
                        self.entries.set(j, e);
                        assert(self@ =~= before.update(j as int, (before[j as int].0, ModelStatus::Ready, before[j as int].2 + 1)));
                        Acquire::Use
                    },
                }
            },
        }
    }
    /// Reports the end of a load of `name`, successful or not.
    pub fn load_finished(&mut self, name: String, ok: bool)
        requires
            old(self).wf(),
        ensures
            final(self).wf(),
            final(self)@ == finish_load(old(self)@, name@, ok),
    {
        match self.find(&name) {
            None => {},
            Some(j) => {
                if self.entries[j].status == ModelStatus::Loading {
                    let ghost before = self@;
                    if ok {
                        self.entries.set(j, ModelEntry { name, status: ModelStatus::Ready, holders: 1 });
                        assert(self@ =~= before.update(j as int, (name@, ModelStatus::Ready, 1)));
                        assert forall|i: int, k: int| 0 <= i < k < self@.len() implies (#[trigger] self@[i]).0 != (#[trigger] self@[k]).0 by {
                            assert(self@[i].0 == before[i].0 && self@[k].0 == before[k].0);
                        }
                    } else {
                        self.entries.remove(j);
                        assert(self@ =~= before.remove(j as int));
                        assert forall|i: int, k: int| 0 <= i < k < self@.len() implies (#[trigger] self@[i]).0 != (#[trigger] self@[k]).0 by {
                            let a = if i < j { i } else { i + 1 };
                            let b = if k < j { k } else { k + 1 };
                            assert(self@[i] == before[a] && self@[k] == before[b]);
                        }
                    }
                }
            },
        }
    }

    /// One holder of `name` lets it go.
    pub fn release(&mut self, name: String)
        requires
            old(self).wf(),
        ensures
            final(self).wf(),
            final(self)@ == release_one(old(self)@, name@),
    {
        match self.find(&name) {
            None => {},
            Some(j) => {
                let holders = self.entries[j].holders;
                if self.entries[j].status == ModelStatus::Ready && holders > 0 {
                    let ghost before = self@;
                    if holders == 1 {
                        self.entries.remove(j);
                        assert(self@ =~= before.remove(j as int));
                        assert forall|i: int, k: int| 0 <= i < k < self@.len() implies (#[trigger] self@[i]).0 != (#[trigger] self@[k]).0 by {
                            let a = if i < j { i } else { i + 1 };
                            let b = if k < j { k } else { k + 1 };
                            assert(self@[i] == before[a] && self@[k] == before[b]);
                        }
                    } else {
                        self.entries.set(j, ModelEntry { name, status: ModelStatus::Ready, holders: holders - 1 });
                        assert(self@ =~= before.update(j as int, (name@, ModelStatus::Ready, (before[j as int].2 - 1) as nat)));
                        assert forall|i: int, k: int| 0 <= i < k < self@.len() implies (#[trigger] self@[i]).0 != (#[trigger] self@[k]).0 by {
                            assert(self@[i].0 == before[i].0 && self@[k].0 == before[k].0);
                        }
                    }
                }
            },
        }
    }

    /// The registered models, with their state and number of holders.
    pub fn show_model_details(&self) -> (r: Vec<ModelEntry>)
        ensures
            model_views(r@) == self@,
    {
        let mut out: Vec<ModelEntry> = Vec::new();
        let mut i: usize = 0;
        while i < self.entries.len()
            invariant
                i <= self.entries.len(),
                out@.len() == i,
                forall|k: int| 0 <= k < i ==> (#[trigger] out@[k])@ == self@[k],
            decreases self.entries.len() - i,
        {
            let e = &self.entries[i];
            assert(self@[i as int] == e@);
            out.push(ModelEntry { name: e.name.clone(), status: e.status, holders: e.holders });
            i = i + 1;
        }
        assert(model_views(out@) =~= self@);
        out
    }
}

} // verus!
