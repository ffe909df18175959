use vstd::prelude::*;
use crate::env::{pairs_nul_free, pairs_view};
use crate::envp::nul_free;

verus! {

/// A remote settings document: a generation number, an optional agent URL
/// and environment pairs for the child, which form a map: keys unique and
/// in ascending order, no key or value holding a NUL character.
#[derive(Debug)]
pub struct RemoteSettings {
    generation: u64,
    java_agent_url: Option<String>,
    env: Vec<(String, String)>,
}

/// Whether `a` comes before `b` in lexicographic order of code points.
pub open spec fn text_less(a: Seq<char>, b: Seq<char>) -> bool
    decreases a.len(),
{
    if b.len() == 0 {
        false
    } else if a.len() == 0 {
        true
    } else if a[0] != b[0] {
        (a[0] as u32) < (b[0] as u32)
    } else {
        text_less(a.drop_first(), b.drop_first())
    }
}

/// Whether the pairs form a map as the settings document holds it: each key
/// before the next in ascending order, no key twice, no NUL character.
pub open spec fn settings_env_wf(env: Seq<(Seq<char>, Seq<char>)>) -> bool {
    &&& forall|i: int| 0 <= i < env.len() - 1 ==> text_less(#[trigger] env[i].0, env[i + 1].0)
    &&& forall|i: int, j: int|
        0 <= i < env.len() && 0 <= j < env.len() && i != j ==> (#[trigger] env[i]).0 != (
        #[trigger] env[j]).0
    &&& pairs_nul_free(env)
}

proof fn lemma_text_less_irreflexive(a: Seq<char>)
    ensures
        !text_less(a, a),
    decreases a.len(),
{
    if a.len() > 0 {
        lemma_text_less_irreflexive(a.drop_first());
    }
}

proof fn lemma_text_less_transitive(a: Seq<char>, b: Seq<char>, c: Seq<char>)
    requires
        text_less(a, b),
        text_less(b, c),
    ensures
        text_less(a, c),
    decreases a.len(),
{
    if a.len() > 0 && a[0] == b[0] && b[0] == c[0] {
        lemma_text_less_transitive(a.drop_first(), b.drop_first(), c.drop_first());
    }
}

/// Keys in strictly ascending order are unique.
proof fn lemma_ascending_keys_unique(env: Seq<(Seq<char>, Seq<char>)>)
    requires
        forall|i: int| 0 <= i < env.len() - 1 ==> text_less(#[trigger] env[i].0, env[i + 1].0),
    ensures
        forall|i: int, j: int|
            0 <= i < env.len() && 0 <= j < env.len() && i != j ==> (#[trigger] env[i]).0 != (
            #[trigger] env[j]).0,
{
    assert forall|i: int, j: int| 0 <= i < j < env.len() implies text_less(
        #[trigger] env[i].0,
        #[trigger] env[j].0,
    ) by {
        lemma_ascending_range(env, i, j);
    }
    assert forall|i: int, j: int|
        0 <= i < env.len() && 0 <= j < env.len() && i != j implies (#[trigger] env[i]).0 != (
        #[trigger] env[j]).0 by {
        if i < j {
            assert(text_less(env[i].0, env[j].0));
            lemma_text_less_irreflexive(env[i].0);
        } else {
            assert(text_less(env[j].0, env[i].0));
            lemma_text_less_irreflexive(env[j].0);
        }
    }
}

proof fn lemma_ascending_range(env: Seq<(Seq<char>, Seq<char>)>, i: int, j: int)
    requires
        forall|k: int| 0 <= k < env.len() - 1 ==> text_less(#[trigger] env[k].0, env[k + 1].0),
        0 <= i < j < env.len(),
    ensures
        text_less(env[i].0, env[j].0),
    decreases j - i,
{
    if j > i + 1 {
        lemma_ascending_range(env, i, j - 1);
        assert(text_less(env[j - 1].0, env[j - 1 + 1].0));
        lemma_text_less_transitive(env[i].0, env[j - 1].0, env[j].0);
    }
}

/// Compares two texts in lexicographic order of code points.
pub fn text_before(a: &str, b: &str) -> (r: bool)
    ensures
        r == text_less(a@, b@),
{
    let n = a.unicode_len();
    let m = b.unicode_len();
    let mut i: usize = 0;
    assert(a@.skip(0) =~= a@);
    assert(b@.skip(0) =~= b@);
    while i < n && i < m
        invariant
            n == a@.len(),
            m == b@.len(),
            i <= n,
            i <= m,
            text_less(a@, b@) == text_less(a@.skip(i as int), b@.skip(i as int)),
        decreases n - i,
    {
        let ca = a.get_char(i);
        let cb = b.get_char(i);
        assert(a@.skip(i as int)[0] == ca && b@.skip(i as int)[0] == cb);
        if ca != cb {
            return (ca as u32) < (cb as u32);
        }
        assert(a@.skip(i as int).drop_first() =~= a@.skip(i + 1));
        assert(b@.skip(i as int).drop_first() =~= b@.skip(i + 1));
        i += 1;
    }
    i < m
}

/// What a settings document holds.
pub struct SettingsView {
    pub generation: u64,
    pub java_agent_url: Option<Seq<char>>,
    pub env: Seq<(Seq<char>, Seq<char>)>,
}

impl View for RemoteSettings {
    type V = SettingsView;

    closed spec fn view(&self) -> SettingsView {
        SettingsView {
            generation: self.generation,
            java_agent_url: settings_view_text(self.java_agent_url),
            env: pairs_view(self.env@),
        }
    }
}

/// The process-wide settings store: the active snapshot, the one retired by
/// the last change (released at the next one) and the current generation.
pub struct SettingsStore {
    active: Option<RemoteSettings>,
    retired: Option<RemoteSettings>,
    generation: u64,
}

/// What the store holds.
pub struct StoreView {
    pub active: Option<SettingsView>,
    pub retired: Option<SettingsView>,
    pub generation: u64,
}

/// The view of an optional settings document.
pub open spec fn settings_view(s: Option<RemoteSettings>) -> Option<SettingsView> {
    match s {
        Some(s) => Some(s@),
        None => None,
    }
}

impl View for SettingsStore {
    type V = StoreView;

    closed spec fn view(&self) -> StoreView {
        StoreView {
            active: settings_view(self.active),
            retired: settings_view(self.retired),
            generation: self.generation,
        }
    }
}

/// The store's invariant: an empty store is at generation 0 with nothing
/// retired; otherwise the generation is that of the active snapshot.
pub open spec fn store_wf(st: StoreView) -> bool {
    match st.active {
        None => st.generation == 0 && st.retired is None,
        Some(a) => a.generation == st.generation,
    }
}

/// The store after `store(s)`: unchanged where `s` is not of a strictly
/// newer generation than the current one; otherwise `s` becomes active, the
/// active snapshot is retired (releasing the one retired before) and the
/// generation is that of `s`.
pub open spec fn store_step(st: StoreView, s: SettingsView) -> StoreView {
    if s.generation <= st.generation {
        st
    } else {
        StoreView { active: Some(s), retired: st.active, generation: s.generation }
    }
}

/// The store after `store` of each snapshot in turn.
pub open spec fn store_all(st: StoreView, ss: Seq<SettingsView>) -> StoreView
    decreases ss.len(),
{
    if ss.len() == 0 {
        st
    } else {
        store_step(store_all(st, ss.drop_last()), ss.last())
    }
}

/// Whether the `k`-th call of a sequence changed the store.
pub open spec fn step_changes(st: StoreView, ss: Seq<SettingsView>, k: int) -> bool {
    ss[k].generation > store_all(st, ss.take(k)).generation
}

/// The view of an optional string.
pub open spec fn settings_view_text(s: Option<String>) -> Option<Seq<char>> {
    match s {
        Some(u) => Some(u@),
        None => None,
    }
}

fn copy_text(s: &Option<String>) -> (r: Option<String>)
    ensures
        settings_view_text(r) == settings_view_text(*s),
{
    match s {
        Some(u) => Some(u.clone()),
        None => None,
    }
}

impl SettingsStore {
    /// An empty store at generation 0.
    pub fn new() -> (r: Self)
        ensures
            r@.active is None,
            r@.retired is None,
            r@.generation == 0,
            store_wf(r@),
    {
        SettingsStore { active: None, retired: None, generation: 0 }
    }
}

impl RemoteSettings {
    #[verifier::type_invariant]
    spec fn env_is_map(&self) -> bool {
        settings_env_wf(self@.env)
    }

    /// A document with these fields; `None` where the pairs do not form a
    /// map: a key not after the one before it, or a NUL character.
    pub fn new(generation: u64, java_agent_url: Option<String>, env: Vec<(String, String)>) -> (r:
        Option<Self>)
        ensures
            settings_env_wf(pairs_view(env@)) <==> r is Some,
            r matches Some(d) ==> d@.generation == generation && d@.java_agent_url
                == settings_view_text(java_agent_url) && d@.env == pairs_view(env@),
    {
        let ghost pv = pairs_view(env@);
        let mut i: usize = 0;
        while i < env.len()
            invariant
                i <= env@.len(),
                pv == pairs_view(env@),
                forall|k: int| 0 <= k < i ==> nul_free(#[trigger] pv[k].0) && nul_free(pv[k].1),
                forall|k: int| 0 <= k < i && k + 1 < pv.len() ==> text_less(#[trigger] pv[k].0, pv[k + 1].0),
            decreases env@.len() - i,
        {
            assert(pv[i as int] == (env@[i as int].0@, env@[i as int].1@));
            if !crate::envp::has_no_nul(env[i].0.as_str()) || !crate::envp::has_no_nul(env[i].1.as_str()) {
                assert(!pairs_nul_free(pv));
                return None;
            }
            if i + 1 < env.len() && !text_before(env[i].0.as_str(), env[i + 1].0.as_str()) {
                assert(pv[i + 1] == (env@[i + 1].0@, env@[i + 1].1@));
                assert(!text_less(pv[i as int].0, pv[i as int + 1].0));
                return None;
            }
            assert(nul_free(pv[i as int].0) && nul_free(pv[i as int].1));
            assert forall|k: int| 0 <= k < i + 1 implies nul_free(#[trigger] pv[k].0) && nul_free(pv[k].1) by {
                if k < i {
                    assert(nul_free(pv[k].0));
                }
            }
            i += 1;
        }
        assert forall|k: int| 0 <= k < pv.len() implies nul_free((#[trigger] pv[k]).0) && nul_free(
            pv[k].1,
        ) by {
            assert(nul_free(pv[k].0));
        }
        proof {
            lemma_ascending_keys_unique(pv);
        }
        assert(settings_env_wf(pv));
        Some(RemoteSettings { generation, java_agent_url, env })
    }

    /// The document's generation.
    pub fn generation(&self) -> (r: u64)
        ensures
            r == self@.generation,
    {
        self.generation
    }

    /// A copy of the document's agent URL.
    pub fn java_agent_url(&self) -> (r: Option<String>)
        ensures
            settings_view_text(r) == self@.java_agent_url,
    {
        copy_text(&self.java_agent_url)
    }

    /// The document's environment pairs, a map in ascending key order.
    pub fn env(&self) -> (r: &Vec<(String, String)>)
        ensures
            pairs_view(r@) == self@.env,
            settings_env_wf(self@.env),
    {
        proof {
            use_type_invariant(self);
        }
        &self.env
    }

    /// An owned copy of this document.
    pub fn snapshot(&self) -> (r: Self)
        ensures
            r@ == self@,
    {
        proof {
            use_type_invariant(self);
        }
        let mut env: Vec<(String, String)> = Vec::new();
        let mut i: usize = 0;
        while i < self.env.len()
            invariant
                i <= self.env@.len(),
                pairs_view(env@) =~= pairs_view(self.env@).take(i as int),
            decreases self.env@.len() - i,
        {
            let p = (self.env[i].0.clone(), self.env[i].1.clone());
            let ghost prev = pairs_view(env@);
            env.push(p);
            assert(pairs_view(env@) =~= prev.push((p.0@, p.1@)));
            assert(pairs_view(self.env@).take(i + 1) =~= pairs_view(self.env@).take(i as int).push(
                (p.0@, p.1@),
            ));
            i += 1;
        }
        assert(pairs_view(self.env@).take(i as int) =~= pairs_view(self.env@));
        let url = copy_text(&self.java_agent_url);
        RemoteSettings { generation: self.generation, java_agent_url: url, env }
    }

    /// An owned copy of the active snapshot, if any.
    pub fn get(store: &SettingsStore) -> (r: Option<RemoteSettings>)
        ensures
            settings_view(r) == store@.active,
    {
        match &store.active {
            Some(s) => Some(s.snapshot()),
            None => None,
        }
    }

    /// The store's current generation.
    pub fn get_generation(store: &SettingsStore) -> (r: u64)
        ensures
            r == store@.generation,
    {
        store.generation
    }

    /// Makes this document the active one where its generation is strictly
    /// newer than the store's; otherwise nothing changes.
    pub fn store(self, store: &mut SettingsStore)
        ensures
            final(store)@ == store_step(old(store)@, self@),
            store_wf(old(store)@) ==> store_wf(final(store)@),
    {
        if self.generation <= store.generation {
            return;
        }
        let generation = self.generation;
        let previous = store.active.take();
        store.active = Some(self);
        store.retired = previous;
        store.generation = generation;
    }
}

/// Storing the same document twice has the effect of storing it once.
pub proof fn lemma_store_idempotent(st: StoreView, s: SettingsView)
    ensures
        store_step(store_step(st, s), s) == store_step(st, s),
{
}

proof fn lemma_store_all_wf(st: StoreView, ss: Seq<SettingsView>)
    requires
        store_wf(st),
    ensures
        store_wf(store_all(st, ss)),
    decreases ss.len(),
{
    if ss.len() > 0 {
        lemma_store_all_wf(st, ss.drop_last());
    }
}

/// Across any sequence of `store` calls the observed generation never
/// decreases; and a call whose generation is not newer than the store's
/// (the current one in particular) leaves the store as it was.
pub proof fn lemma_generation_monotone(st: StoreView, ss: Seq<SettingsView>)
    ensures
        forall|i: int, j: int|
            #![trigger ss.take(i), ss.take(j)]
            0 <= i <= j <= ss.len() ==> store_all(st, ss.take(i)).generation <= store_all(
                st,
                ss.take(j),
            ).generation,
        forall|k: int|
            0 <= k < ss.len() && ss[k].generation <= store_all(st, ss.take(k)).generation
                ==> #[trigger] store_all(st, ss.take(k + 1)) == store_all(st, ss.take(k)),
{
    assert forall|k: int| 0 <= k < ss.len() implies store_all(st, ss.take(k)).generation <= store_all(st, #[trigger] ss.take(k + 1)).generation && store_all(st, ss.take(k + 1)) == store_step(store_all(st, ss.take(k)), ss[k]) by {
        assert(ss.take(k + 1).drop_last() =~= ss.take(k));
        assert(ss.take(k + 1).last() == ss[k]);
    }
    assert forall|i: int, j: int|
        #![trigger ss.take(i), ss.take(j)]
        0 <= i <= j <= ss.len() implies store_all(st, ss.take(i)).generation <= store_all(st, ss.take(j)).generation by {
        lemma_monotone_range(st, ss, i, j);
    }
}

proof fn lemma_monotone_range(st: StoreView, ss: Seq<SettingsView>, i: int, j: int)
    requires
        0 <= i <= j <= ss.len(),
        forall|k: int| 0 <= k < ss.len() ==> store_all(st, ss.take(k)).generation <= store_all(st, #[trigger] ss.take(k + 1)).generation,
    ensures
        store_all(st, ss.take(i)).generation <= store_all(st, ss.take(j)).generation,
    decreases j - i,
{
    if i < j {
        lemma_monotone_range(st, ss, i, j - 1);
        assert(store_all(st, ss.take(j - 1)).generation <= store_all(st, ss.take(j - 1 + 1)).generation);
    }
}

/// The `k`-th call of a sequence changed the store and no later call did.
pub open spec fn last_change_at(st: StoreView, ss: Seq<SettingsView>, k: int) -> bool {
    &&& 0 <= k < ss.len()
    &&& step_changes(st, ss, k)
    &&& forall|m: int| k < m < ss.len() ==> !#[trigger] step_changes(st, ss, m)
}

/// No call of a sequence changed the store.
pub open spec fn no_change(st: StoreView, ss: Seq<SettingsView>) -> bool {
    forall|m: int| 0 <= m < ss.len() ==> !#[trigger] step_changes(st, ss, m)
}

proof fn lemma_changes_prefix(st: StoreView, ss: Seq<SettingsView>, k: int)
    requires
        0 <= k < ss.len() - 1,
    ensures
        step_changes(st, ss.drop_last(), k) == step_changes(st, ss, k),
{
    assert(ss.drop_last().take(k) =~= ss.take(k));
}

/// After any sequence of `store` calls on a well-formed store, `get` yields
/// the document of the last call that changed the store, at the generation
/// that `get_generation` reports; where no call changed it, the store is as
/// it was.
pub proof fn lemma_get_is_last_change(st: StoreView, ss: Seq<SettingsView>)
    requires
        store_wf(st),
    ensures
        store_wf(store_all(st, ss)),
        forall|k: int|
            #[trigger] last_change_at(st, ss, k) ==> store_all(st, ss).active == Some(ss[k])
                && store_all(st, ss).generation == ss[k].generation,
        no_change(st, ss) ==> store_all(st, ss) == st,
    decreases ss.len(),
{
    lemma_store_all_wf(st, ss);
    if ss.len() > 0 {
        let pre = ss.drop_last();
        let n = ss.len() - 1;
        lemma_get_is_last_change(st, pre);
        assert(ss.take(n) =~= pre);
        if step_changes(st, ss, n) {
            assert forall|k: int| #[trigger] last_change_at(st, ss, k) implies k == n by {
                if k < n {
                    assert(!step_changes(st, ss, n));
                }
            }
            assert(!no_change(st, ss));
        } else {
            assert forall|k: int| #[trigger] last_change_at(st, ss, k) implies last_change_at(st, pre, k) by {
                lemma_changes_prefix(st, ss, k);
                assert forall|m: int| k < m < pre.len() implies !#[trigger] step_changes(st, pre, m) by {
                    lemma_changes_prefix(st, ss, m);
                    assert(!step_changes(st, ss, m));
                }
            }
            if no_change(st, ss) {
                assert forall|m: int| 0 <= m < pre.len() implies !#[trigger] step_changes(st, pre, m) by {
                    lemma_changes_prefix(st, ss, m);
                    assert(!step_changes(st, ss, m));
                }
            }
        }
    }
}

} // verus!
