use vstd::prelude::*;
use crate::envp::{
    Envp, env_insert, env_lookup, eq_free, has_eq, key_of, value_of, split_entry, nul_free,
    env_keys_unique, lemma_insert_keeps_keys_unique, lemma_insert_lookup, lemma_key_eq_free,
    lemma_subrange_nul_free,
};

verus! {

/// The pieces of `s` between its line feeds, empty ones included.
pub open spec fn pieces(s: Seq<char>) -> Seq<Seq<char>>
    decreases s.len(),
{
    if s.len() == 0 {
        seq![Seq::empty()]
    } else {
        let p = pieces(s.drop_last());
        if s.last() == '\n' {
            p.push(Seq::empty())
        } else {
            p.update(p.len() - 1, p.last().push(s.last()))
        }
    }
}

/// A line without the carriage return that may end it.
pub open spec fn strip_cr(l: Seq<char>) -> Seq<char> {
    if l.len() > 0 && l.last() == '\r' {
        l.drop_last()
    } else {
        l
    }
}

/// The lines of `s`: each piece that a line feed ends, without a carriage
/// return before that line feed, then the piece after the last line feed
/// where it is not empty.
pub open spec fn lines_of(s: Seq<char>) -> Seq<Seq<char>> {
    let p = pieces(s);
    let ended = p.drop_last().map_values(|l: Seq<char>| strip_cr(l));
    if p.last().len() == 0 {
        ended
    } else {
        ended.push(p.last())
    }
}

/// The `(key, value)` pairs of the lines that hold a `=`, split at the first
/// one, in order.
pub open spec fn env_pairs_of(lines: Seq<Seq<char>>) -> Seq<(Seq<char>, Seq<char>)>
    decreases lines.len(),
{
    if lines.len() == 0 {
        Seq::empty()
    } else {
        let rest = env_pairs_of(lines.drop_last());
        if has_eq(lines.last()) {
            rest.push((key_of(lines.last()), value_of(lines.last())))
        } else {
            rest
        }
    }
}

/// `env` after inserting each pair in turn.
pub open spec fn env_insert_all(env: Seq<Seq<char>>, pairs: Seq<(Seq<char>, Seq<char>)>) -> Seq<
    Seq<char>,
>
    decreases pairs.len(),
{
    if pairs.len() == 0 {
        env
    } else {
        let p = pairs.last();
        env_insert(env_insert_all(env, pairs.drop_last()), p.0, p.1)
    }
}

/// Whether no key or value of `pairs` holds a NUL character.
pub open spec fn pairs_nul_free(pairs: Seq<(Seq<char>, Seq<char>)>) -> bool {
    forall|i: int| 0 <= i < pairs.len() ==> nul_free((#[trigger] pairs[i]).0) && nul_free(pairs[i].1)
}

/// The view of a list of string pairs.
pub open spec fn pairs_view(pairs: Seq<(String, String)>) -> Seq<(Seq<char>, Seq<char>)> {
    pairs.map_values(|p: (String, String)| (p.0@, p.1@))
}

fn strip_line(l: &str) -> (r: String)
    ensures
        r@ == strip_cr(l@),
        nul_free(l@) ==> nul_free(r@),
{
    let n = l.unicode_len();
    if n > 0 && l.get_char(n - 1) == '\r' {
        proof {
            if nul_free(l@) {
                lemma_subrange_nul_free(l@, 0, n - 1);
            }
        }
        l.substring_char(0, n - 1).to_string()
    } else {
        l.to_string()
    }
}

/// Splits text into lines the way `str::lines` does.
pub fn lines(s: &str) -> (r: Vec<String>)
    ensures
        r@.map_values(|l: String| l@) == lines_of(s@),
        nul_free(s@) ==> forall|i: int| 0 <= i < r@.len() ==> nul_free(#[trigger] r@[i]@),
{
    let n = s.unicode_len();
    let mut done: Vec<String> = Vec::new();
    let mut start: usize = 0;
    let mut i: usize = 0;
    assert(s@.take(0) =~= Seq::<char>::empty());
    while i < n
        invariant
            n == s@.len(),
            start <= i <= n,
            pieces(s@.take(i as int)).drop_last().map_values(|l: Seq<char>| strip_cr(l))
                =~= done@.map_values(|l: String| l@),
            pieces(s@.take(i as int)).last() =~= s@.subrange(start as int, i as int),
            pieces(s@.take(i as int)).len() >= 1,
            nul_free(s@) ==> forall|k: int| 0 <= k < done@.len() ==> nul_free(#[trigger] done@[k]@),
        decreases n - i,
    {
        let c = s.get_char(i);
        let ghost prev = done@.map_values(|l: String| l@);
        let ghost p = pieces(s@.take(i as int));
        assert(s@.take(i + 1).drop_last() =~= s@.take(i as int));
        assert(s@.take(i + 1).last() == c);
        if c == '\n' {
            proof {
                if nul_free(s@) {
                    lemma_subrange_nul_free(s@, start as int, i as int);
                }
            }
            let piece = strip_line(s.substring_char(start, i));
            done.push(piece);
            assert(done@.map_values(|l: String| l@) =~= prev.push(piece@));
            assert(pieces(s@.take(i + 1)).drop_last() =~= p);
            start = i + 1;
            assert(s@.subrange(start as int, i + 1) =~= Seq::<char>::empty());
        } else {
            assert(pieces(s@.take(i + 1)).drop_last() =~= p.drop_last());
            assert(s@.subrange(start as int, i + 1) =~= s@.subrange(start as int, i as int).push(c));
        }
        i += 1;
    }
    assert(s@.take(n as int) =~= s@);
    let last = s.substring_char(start, n);
    proof {
        if nul_free(s@) {
            lemma_subrange_nul_free(s@, start as int, n as int);
        }
    }
    if last.unicode_len() > 0 {
        let ghost prev = done@.map_values(|l: String| l@);
        let piece = last.to_string();
        done.push(piece);
        assert(done@.map_values(|l: String| l@) =~= prev.push(piece@));
    }
    done
}

/// The `key=value` pairs of a text: one per line, split at the first `=`;
/// lines without one are skipped.
pub fn parse_env(content: &str) -> (r: Vec<(String, String)>)
    ensures
        pairs_view(r@) == env_pairs_of(lines_of(content@)),
        nul_free(content@) ==> pairs_nul_free(pairs_view(r@)),
{
    let ls = lines(content);
    let ghost lv = ls@.map_values(|l: String| l@);
    let mut out: Vec<(String, String)> = Vec::new();
    let mut i: usize = 0;
    while i < ls.len()
        invariant
            i <= ls@.len(),
            lv == ls@.map_values(|l: String| l@),
            lv == lines_of(content@),
            pairs_view(out@) == env_pairs_of(lv.take(i as int)),
            nul_free(content@) ==> forall|k: int| 0 <= k < ls@.len() ==> nul_free(#[trigger] ls@[k]@),
            nul_free(content@) ==> pairs_nul_free(pairs_view(out@)),
        decreases ls@.len() - i,
    {
        assert(lv.take(i + 1).drop_last() =~= lv.take(i as int));
        assert(lv.take(i + 1).last() == ls@[i as int]@);
        let (k, v) = split_entry(ls[i].as_str());
        if let Some(v) = v {
            let ghost prev = pairs_view(out@);
            let pair = (k.to_string(), v.to_string());
            out.push(pair);
            assert(pairs_view(out@) =~= prev.push((pair.0@, pair.1@)));
            assert(nul_free(content@) ==> pairs_nul_free(pairs_view(out@))) by {
                if nul_free(content@) {
                    assert(nul_free(ls@[i as int]@));
                    assert forall|m: int| 0 <= m < pairs_view(out@).len() implies nul_free((#[trigger] pairs_view(out@)[m]).0) && nul_free(pairs_view(out@)[m].1) by {
                        if m < prev.len() {
                            assert(pairs_view(out@)[m] == prev[m]);
                        }
                    }
                }
            }
        }
        i += 1;
    }
    assert(lv.take(i as int) =~= lv);
    out
}

impl Envp {
    /// Inserts each pair in turn, so that a later pair wins over an earlier
    /// one and over what the environment held.
    pub fn insert_pairs(&mut self, pairs: &Vec<(String, String)>)
        requires
            pairs_nul_free(pairs_view(pairs@)),
        ensures
            final(self)@ == env_insert_all(old(self)@, pairs_view(pairs@)),
    {
        let ghost before = self@;
        let ghost pv = pairs_view(pairs@);
        let mut i: usize = 0;
        while i < pairs.len()
            invariant
                i <= pairs@.len(),
                pv == pairs_view(pairs@),
                pairs_nul_free(pv),
                self@ == env_insert_all(before, pv.take(i as int)),
            decreases pairs@.len() - i,
        {
            assert(pv.take(i + 1).drop_last() =~= pv.take(i as int));
            assert(nul_free(pv[i as int].0) && nul_free(pv[i as int].1));
            self.insert(pairs[i].0.as_str(), pairs[i].1.as_str());
            i += 1;
        }
        assert(pv.take(i as int) =~= pv);
    }
}

/// Applies the `key=value` lines of an override text to `envp`: each pair is
/// inserted in turn, so the text wins over what `envp` held.
pub fn load_env_from_text(envp: &mut Envp, content: &str)
    requires
        nul_free(content@),
    ensures
        final(envp)@ == env_insert_all(old(envp)@, env_pairs_of(lines_of(content@))),
{
    let pairs = parse_env(content);
    envp.insert_pairs(&pairs);
}

/// The value of the last pair with key `key`.
pub open spec fn pairs_last_value(pairs: Seq<(Seq<char>, Seq<char>)>, key: Seq<char>) -> Option<
    Seq<char>,
>
    decreases pairs.len(),
{
    if pairs.len() == 0 {
        None
    } else if pairs.last().0 == key {
        Some(pairs.last().1)
    } else {
        pairs_last_value(pairs.drop_last(), key)
    }
}

/// Whether no key of `pairs` holds a `=`.
pub open spec fn pairs_keys_eq_free(pairs: Seq<(Seq<char>, Seq<char>)>) -> bool {
    forall|i: int| 0 <= i < pairs.len() ==> eq_free(#[trigger] pairs[i].0)
}

proof fn lemma_env_pairs_keys_eq_free(lines: Seq<Seq<char>>)
    ensures
        pairs_keys_eq_free(env_pairs_of(lines)),
    decreases lines.len(),
{
    if lines.len() > 0 {
        lemma_env_pairs_keys_eq_free(lines.drop_last());
        lemma_key_eq_free(lines.last());
        let rest = env_pairs_of(lines.drop_last());
        if has_eq(lines.last()) {
            let all = rest.push((key_of(lines.last()), value_of(lines.last())));
            assert forall|i: int| 0 <= i < all.len() implies eq_free(#[trigger] all[i].0) by {
                if i < rest.len() {
                    assert(all[i] == rest[i]);
                }
            }
        }
    }
}

/// After inserting pairs in turn, a lookup of a key gives the value of the
/// last pair with that key, or, where none has it, what it gave before.
pub proof fn lemma_insert_all_lookup(
    env: Seq<Seq<char>>,
    pairs: Seq<(Seq<char>, Seq<char>)>,
    key: Seq<char>,
)
    requires
        pairs_keys_eq_free(pairs),
    ensures
        env_lookup(env_insert_all(env, pairs), key) == match pairs_last_value(pairs, key) {
            Some(v) => Some(v),
            None => env_lookup(env, key),
        },
        env_keys_unique(env) ==> env_keys_unique(env_insert_all(env, pairs)),
    decreases pairs.len(),
{
    if pairs.len() > 0 {
        let pre = pairs.drop_last();
        let p = pairs.last();
        assert(p == pairs[pairs.len() - 1]);
        assert forall|i: int| 0 <= i < pre.len() implies eq_free(#[trigger] pre[i].0) by {
            assert(pre[i] == pairs[i]);
        }
        lemma_insert_all_lookup(env, pre, key);
        lemma_insert_lookup(env_insert_all(env, pre), p.0, p.1, key);
        if env_keys_unique(env) {
            lemma_insert_keeps_keys_unique(env_insert_all(env, pre), p.0, p.1);
        }
    }
}

/// Applying an override text over an environment: a lookup of any key gives
/// the value of the text's last `key=value` line for it, so the text wins on
/// a key that both hold; a key the text does not name keeps its value; and
/// where no key occurred twice in the environment, none does after.
pub proof fn lemma_override_wins(seed: Seq<Seq<char>>, content: Seq<char>, key: Seq<char>)
    ensures
        env_keys_unique(seed) ==> env_keys_unique(
            env_insert_all(seed, env_pairs_of(lines_of(content))),
        ),
        env_lookup(env_insert_all(seed, env_pairs_of(lines_of(content))), key) == match pairs_last_value(
            env_pairs_of(lines_of(content)),
            key,
        ) {
            Some(v) => Some(v),
            None => env_lookup(seed, key),
        },
{
    lemma_env_pairs_keys_eq_free(lines_of(content));
    lemma_insert_all_lookup(seed, env_pairs_of(lines_of(content)), key);
}

} // verus!
