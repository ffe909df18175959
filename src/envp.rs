use vstd::prelude::*;

verus! {

/// Whether `s` holds no NUL character, which an `execve` string cannot.
pub open spec fn nul_free(s: Seq<char>) -> bool {
    forall|i: int| 0 <= i < s.len() ==> s[i] != '\0'
}

/// Whether no entry of `env` holds a NUL character.
pub open spec fn env_nul_free(env: Seq<Seq<char>>) -> bool {
    forall|i: int| 0 <= i < env.len() ==> nul_free(#[trigger] env[i])
}

/// Whether no argument holds a zero byte.
pub open spec fn args_nul_free(args: Seq<Seq<u8>>) -> bool {
    forall|i: int| 0 <= i < args.len() ==> !(#[trigger] args[i]).contains(0u8)
}

/// A stretch of a NUL-free text is NUL-free.
pub proof fn lemma_subrange_nul_free(s: Seq<char>, a: int, b: int)
    requires
        nul_free(s),
        0 <= a <= b <= s.len(),
    ensures
        nul_free(s.subrange(a, b)),
{
    assert forall|j: int| 0 <= j < b - a implies s.subrange(a, b)[j] != '\0' by {
        assert(s.subrange(a, b)[j] == s[a + j]);
    }
}

/// `i` is the position of the first `=` in `e`.
pub open spec fn first_eq_at(e: Seq<char>, i: int) -> bool {
    &&& 0 <= i < e.len()
    &&& e[i] == '='
    &&& forall|j: int| 0 <= j < i ==> e[j] != '='
}

/// Whether `e` holds a `=` at all.
pub open spec fn has_eq(e: Seq<char>) -> bool {
    exists|i: int| first_eq_at(e, i)
}

/// The key of an environment entry: everything before its first `=`, or
/// the whole entry where it has none.
pub open spec fn key_of(e: Seq<char>) -> Seq<char> {
    if has_eq(e) {
        e.take(choose|i: int| first_eq_at(e, i))
    } else {
        e
    }
}

/// The value of an entry that holds a `=`: everything after the first one.
pub open spec fn value_of(e: Seq<char>) -> Seq<char> {
    e.skip((choose|i: int| first_eq_at(e, i)) + 1)
}

/// The entry `key=value`.
pub open spec fn entry_of(key: Seq<char>, value: Seq<char>) -> Seq<char> {
    key + seq!['='] + value
}

/// The entries of `env` whose key is not `key`, in their order.
pub open spec fn without_key(env: Seq<Seq<char>>, key: Seq<char>) -> Seq<Seq<char>>
    decreases env.len(),
{
    if env.len() == 0 {
        env
    } else {
        let rest = without_key(env.drop_last(), key);
        if key_of(env.last()) == key {
            rest
        } else {
            rest.push(env.last())
        }
    }
}

/// `env` after setting `key` to `value`: every entry with that key leaves,
/// and `key=value` goes last.
pub open spec fn env_insert(env: Seq<Seq<char>>, key: Seq<char>, value: Seq<char>) -> Seq<
    Seq<char>,
> {
    without_key(env, key).push(entry_of(key, value))
}

/// The value of the first entry that holds a `=` and has key `key`.
pub open spec fn env_lookup(env: Seq<Seq<char>>, key: Seq<char>) -> Option<Seq<char>>
    decreases env.len(),
{
    if env.len() == 0 {
        None
    } else if has_eq(env[0]) && key_of(env[0]) == key {
        Some(value_of(env[0]))
    } else {
        env_lookup(env.drop_first(), key)
    }
}

/// Whether some entry of `env` starts with `prefix`.
pub open spec fn env_has_prefix(env: Seq<Seq<char>>, prefix: Seq<char>) -> bool {
    exists|i: int| 0 <= i < env.len() && env[i].len() >= prefix.len() && env[i].take(prefix.len() as int) == prefix
}

/// Whether two strings hold the same characters.
pub fn same_text(a: &str, b: &str) -> (r: bool)
    ensures
        r == (a@ == b@),
{
    let n = a.unicode_len();
    if n != b.unicode_len() {
        return false;
    }
    let mut i: usize = 0;
    while i < n
        invariant
            n == a@.len() == b@.len(),
            i <= n,
            forall|j: int| 0 <= j < i ==> a@[j] == b@[j],
        decreases n - i,
    {
        if a.get_char(i) != b.get_char(i) {
            return false;
        }
        i += 1;
    }
    assert(a@ =~= b@);
    true
}

/// Whether `s` holds no `=`.
pub open spec fn eq_free(s: Seq<char>) -> bool {
    forall|i: int| 0 <= i < s.len() ==> s[i] != '='
}

/// Whether entry `e` holds a `=` and has key `key`: what a lookup of `key`
/// stops at.
pub open spec fn entry_matches(e: Seq<char>, key: Seq<char>) -> bool {
    has_eq(e) && key_of(e) == key
}

proof fn lemma_lookup_push(s: Seq<Seq<char>>, x: Seq<char>, key: Seq<char>)
    ensures
        env_lookup(s.push(x), key) == match env_lookup(s, key) {
            Some(v) => Some(v),
            None => if entry_matches(x, key) {
                Some(value_of(x))
            } else {
                None
            },
        },
    decreases s.len(),
{
    if s.len() > 0 {
        assert(s.push(x).drop_first() =~= s.drop_first().push(x));
        assert(s.push(x)[0] == s[0]);
        lemma_lookup_push(s.drop_first(), x, key);
    } else {
        assert(s.push(x).drop_first() =~= Seq::<Seq<char>>::empty());
        assert(s.push(x)[0] == x);
        assert(env_lookup(s.push(x).drop_first(), key) is None);
        assert(env_lookup(s, key) is None);
    }
}

proof fn lemma_without_key_lookup(env: Seq<Seq<char>>, key: Seq<char>, other: Seq<char>)
    ensures
        env_lookup(without_key(env, key), key) is None,
        other != key ==> env_lookup(without_key(env, key), other) == env_lookup(env, other),
    decreases env.len(),
{
    if env.len() == 0 {
    } else {
        let pre = env.drop_last();
        let x = env.last();
        lemma_without_key_lookup(pre, key, other);
        assert(env =~= pre.push(x));
        lemma_lookup_push(pre, x, other);
        if key_of(x) != key {
            lemma_lookup_push(without_key(pre, key), x, key);
            lemma_lookup_push(without_key(pre, key), x, other);
        }
    }
}

/// The entry `key=value` of a key without `=` has that key and that value.
pub proof fn lemma_entry_of(key: Seq<char>, value: Seq<char>)
    requires
        eq_free(key),
    ensures
        entry_matches(entry_of(key, value), key),
        value_of(entry_of(key, value)) == value,
{
    let e = entry_of(key, value);
    assert(e[key.len() as int] == '=');
    assert forall|j: int| 0 <= j < key.len() implies e[j] != '=' by {
        assert(e[j] == key[j]);
    }
    assert(first_eq_at(e, key.len() as int));
    lemma_first_eq_unique(e, key.len() as int);
    assert(e.take(key.len() as int) =~= key);
    assert(e.skip(key.len() as int + 1) =~= value);
}

/// After `insert(key, value)` a lookup of `key` gives `value`, and a lookup
/// of any other key gives what it gave before.
pub proof fn lemma_insert_lookup(env: Seq<Seq<char>>, key: Seq<char>, value: Seq<char>, other: Seq<char>)
    requires
        eq_free(key),
    ensures
        env_lookup(env_insert(env, key, value), key) == Some(value),
        other != key ==> env_lookup(env_insert(env, key, value), other) == env_lookup(env, other),
{
    lemma_without_key_lookup(env, key, other);
    lemma_entry_of(key, value);
    lemma_lookup_push(without_key(env, key), entry_of(key, value), key);
    lemma_lookup_push(without_key(env, key), entry_of(key, value), other);
}

/// Whether no two entries of `env` have the same key.
pub open spec fn env_keys_unique(env: Seq<Seq<char>>) -> bool {
    forall|i: int, j: int|
        0 <= i < j < env.len() ==> key_of(#[trigger] env[i]) != key_of(#[trigger] env[j])
}

proof fn lemma_without_key_keeps(env: Seq<Seq<char>>, key: Seq<char>)
    ensures
        forall|i: int|
            0 <= i < without_key(env, key).len() ==> key_of(#[trigger] without_key(env, key)[i])
                != key && env.contains(without_key(env, key)[i]),
        env_keys_unique(env) ==> env_keys_unique(without_key(env, key)),
    decreases env.len(),
{
    if env.len() > 0 {
        let pre = env.drop_last();
        let x = env.last();
        let w = without_key(pre, key);
        lemma_without_key_keeps(pre, key);
        assert(env =~= pre.push(x));
        assert forall|y: Seq<char>| pre.contains(y) implies env.contains(y) by {
            let m = choose|m: int| 0 <= m < pre.len() && pre[m] == y;
            assert(env[m] == y);
        }
        if key_of(x) != key {
            let all = w.push(x);
            assert(env.contains(x)) by {
                assert(env[env.len() - 1] == x);
            }
            assert forall|i: int| 0 <= i < all.len() implies key_of(#[trigger] all[i]) != key
                && env.contains(all[i]) by {
                if i < w.len() {
                    assert(all[i] == w[i]);
                }
            }
            if env_keys_unique(env) {
                assert(env_keys_unique(pre)) by {
                    assert forall|i: int, j: int| 0 <= i < j < pre.len() implies key_of(
                        #[trigger] pre[i],
                    ) != key_of(#[trigger] pre[j]) by {
                        assert(pre[i] == env[i] && pre[j] == env[j]);
                    }
                }
                assert forall|i: int, j: int| 0 <= i < j < all.len() implies key_of(
                    #[trigger] all[i],
                ) != key_of(#[trigger] all[j]) by {
                    assert(all[i] == w[i]);
                    if j < w.len() {
                        assert(all[j] == w[j]);
                    } else {
                        assert(all[j] == x);
                        assert(pre.contains(w[i]));
                        let m = choose|m: int| 0 <= m < pre.len() && pre[m] == w[i];
                        assert(env[m] == w[i]);
                        assert(env[env.len() - 1] == x);
                    }
                }
            }
        } else {
            if env_keys_unique(env) {
                assert forall|i: int, j: int| 0 <= i < j < pre.len() implies key_of(
                    #[trigger] pre[i],
                ) != key_of(#[trigger] pre[j]) by {
                    assert(pre[i] == env[i] && pre[j] == env[j]);
                }
            }
        }
    }
}

/// Inserting a key without `=` keeps the keys of an environment unique.
pub proof fn lemma_insert_keeps_keys_unique(env: Seq<Seq<char>>, key: Seq<char>, value: Seq<char>)
    requires
        eq_free(key),
        env_keys_unique(env),
    ensures
        env_keys_unique(env_insert(env, key, value)),
{
    let w = without_key(env, key);
    let all = w.push(entry_of(key, value));
    lemma_without_key_keeps(env, key);
    lemma_entry_of(key, value);
    assert forall|i: int, j: int| 0 <= i < j < all.len() implies key_of(#[trigger] all[i])
        != key_of(#[trigger] all[j]) by {
        assert(all[i] == w[i]);
        if j < w.len() {
            assert(all[j] == w[j]);
        } else {
            assert(all[j] == entry_of(key, value));
        }
    }
}

/// The key of an entry holds no `=`.
pub proof fn lemma_key_eq_free(e: Seq<char>)
    ensures
        eq_free(key_of(e)),
{
    if has_eq(e) {
        let i = choose|i: int| first_eq_at(e, i);
        assert forall|j: int| 0 <= j < key_of(e).len() implies key_of(e)[j] != '=' by {
            assert(key_of(e)[j] == e[j]);
        }
    } else {
        assert forall|j: int| 0 <= j < e.len() implies e[j] != '=' by {
            if e[j] == '=' {
                assert(exists|k: int| 0 <= k <= j && e[k] == '=');
                lemma_some_first_eq(e, j);
            }
        }
    }
}

proof fn lemma_some_first_eq(e: Seq<char>, j: int)
    requires
        0 <= j < e.len(),
        e[j] == '=',
    ensures
        has_eq(e),
    decreases j,
{
    if forall|m: int| 0 <= m < j ==> e[m] != '=' {
        assert(first_eq_at(e, j));
    } else {
        let m = choose|m: int| 0 <= m < j && e[m] == '=';
        lemma_some_first_eq(e, m);
    }
}

/// Whether `s` holds no NUL character.
pub fn has_no_nul(s: &str) -> (r: bool)
    ensures
        r == nul_free(s@),
{
    let n = s.unicode_len();
    let mut i: usize = 0;
    while i < n
        invariant
            n == s@.len(),
            i <= n,
            forall|j: int| 0 <= j < i ==> s@[j] != '\0',
        decreases n - i,
    {
        if s.get_char(i) == '\0' {
            return false;
        }
        i += 1;
    }
    true
}

/// Finds the first `=` of `s`.
pub fn find_eq(s: &str) -> (r: Option<usize>)
    ensures
        match r {
            Some(i) => first_eq_at(s@, i as int),
            None => !has_eq(s@) && forall|j: int| 0 <= j < s@.len() ==> s@[j] != '=',
        },
{
    let n = s.unicode_len();
    let mut i: usize = 0;
    while i < n
        invariant
            n == s@.len(),
            i <= n,
            forall|j: int| 0 <= j < i ==> s@[j] != '=',
        decreases n - i,
    {
        if s.get_char(i) == '=' {
            return Some(i);
        }
        i += 1;
    }
    None
}

proof fn lemma_first_eq_unique(e: Seq<char>, i: int)
    requires
        first_eq_at(e, i),
    ensures
        has_eq(e),
        (choose|k: int| first_eq_at(e, k)) == i,
{
    let k = choose|k: int| first_eq_at(e, k);
    assert(first_eq_at(e, k));
    if k < i {
        assert(e[k] != '=');
    } else if i < k {
        assert(e[i] != '=');
    }
}

/// The key of `s` and, where it holds a `=`, its value.
pub fn split_entry(s: &str) -> (r: (&str, Option<&str>))
    ensures
        r.0@ == key_of(s@),
        match r.1 {
            Some(v) => has_eq(s@) && v@ == value_of(s@),
            None => !has_eq(s@),
        },
        nul_free(s@) ==> nul_free(r.0@),
        nul_free(s@) ==> (r.1 matches Some(v) ==> nul_free(v@)),
{
    match find_eq(s) {
        Some(i) => {
            proof {
                lemma_first_eq_unique(s@, i as int);
            }
            let n = s.unicode_len();
            let k = s.substring_char(0, i);
            let v = s.substring_char(i + 1, n);
            assert(nul_free(s@) ==> nul_free(k@)) by {
                if nul_free(s@) {
                    assert forall|j: int| 0 <= j < k@.len() implies k@[j] != '\0' by {
                        assert(k@[j] == s@[j]);
                    }
                }
            }
            assert(nul_free(s@) ==> nul_free(v@)) by {
                if nul_free(s@) {
                    assert forall|j: int| 0 <= j < v@.len() implies v@[j] != '\0' by {
                        assert(v@[j] == s@[i + 1 + j]);
                    }
                }
            }
            (k, Some(v))
        },
        None => (s, None),
    }
}

/// An ordered list of `key=value` strings, handed to a child's `execve`.
pub struct Envp {
    env: Vec<String>,
}

impl View for Envp {
    type V = Seq<Seq<char>>;

    closed spec fn view(&self) -> Seq<Seq<char>> {
        self.env@.map_values(|s: String| s@)
    }
}

impl Envp {
    /// No entry holds a NUL character, so each can be handed to `execve`.
    #[verifier::type_invariant]
    spec fn entries_nul_free(&self) -> bool {
        env_nul_free(self@)
    }

    pub fn new() -> (r: Self)
        ensures
            r@ == Seq::<Seq<char>>::empty(),
    {
        Envp { env: Vec::new() }
    }

    /// An environment that holds these entries as they are, in their order.
    pub fn from_entries(entries: Vec<String>) -> (r: Self)
        requires
            env_nul_free(entries@.map_values(|s: String| s@)),
        ensures
            r@ == entries@.map_values(|s: String| s@),
    {
        Envp { env: entries }
    }

    /// A copy of this environment.
    pub fn duplicate(&self) -> (r: Self)
        ensures
            r@ == self@,
    {
        proof {
            use_type_invariant(self);
        }
        let mut env: Vec<String> = Vec::new();
        let mut i: usize = 0;
        while i < self.env.len()
            invariant
                i <= self.env@.len(),
                env@.map_values(|s: String| s@) =~= self@.take(i as int),
            decreases self.env@.len() - i,
        {
            let c = self.env[i].clone();
            assert(c@ == self@[i as int]);
            let ghost prev = env@.map_values(|s: String| s@);
            env.push(c);
            assert(env@.map_values(|s: String| s@) =~= prev.push(c@));
            assert(self@.take(i + 1) =~= self@.take(i as int).push(self@[i as int]));
            i += 1;
        }
        assert(self@.take(i as int) =~= self@);
        Envp { env }
    }

    /// Sets `key` to `val`: every entry whose key is `key` is removed and
    /// `key=val` is appended.
    pub fn insert(&mut self, key: &str, val: &str)
        requires
            nul_free(key@),
            nul_free(val@),
        ensures
            final(self)@ == env_insert(old(self)@, key@, val@),
    {
        proof {
            use_type_invariant(&*self);
        }
        let ghost before = self@;
        let mut kept: Vec<String> = Vec::new();
        let mut i: usize = 0;
        while i < self.env.len()
            invariant
                i <= self.env@.len(),
                self@ == before,
                kept@.map_values(|s: String| s@) == without_key(before.take(i as int), key@),
                env_nul_free(before),
                env_nul_free(kept@.map_values(|s: String| s@)),
            decreases self.env@.len() - i,
        {
            let (k, _) = split_entry(self.env[i].as_str());
            assert(before.take(i + 1).drop_last() =~= before.take(i as int));
            assert(before.take(i + 1).last() == self.env@[i as int]@);
            if !same_text(k, key) {
                let ghost prev = kept@.map_values(|s: String| s@);
                kept.push(self.env[i].clone());
                assert(kept@.map_values(|s: String| s@) =~= prev.push(before[i as int]));
                assert(kept@.map_values(|s: String| s@) =~= without_key(before.take(i as int), key@).push(self.env@[i as int]@));
            }
            i += 1;
        }
        assert(before.take(i as int) =~= before);
        let mut entry = String::from_str(key);
        entry.append("=");
        entry.append(val);
        proof {
            reveal_strlit("=");
        }
        assert(entry@ =~= entry_of(key@, val@));
        let ghost prev = kept@.map_values(|s: String| s@);
        kept.push(entry);
        assert(kept@.map_values(|s: String| s@) =~= env_insert(before, key@, val@));
        assert(kept@.map_values(|s: String| s@) =~= prev.push(entry_of(key@, val@)));
        assert(nul_free(entry_of(key@, val@))) by {
            let e = entry_of(key@, val@);
            assert forall|j: int| 0 <= j < e.len() implies e[j] != '\0' by {
                if j < key@.len() {
                    assert(e[j] == key@[j]);
                } else if j > key@.len() {
                    assert(e[j] == val@[j - key@.len() - 1]);
                }
            }
        }
        self.env = kept;
    }

    /// The value of the first entry with key `key` that holds a `=`.
    pub fn get_value(&self, key: &str) -> (r: Option<String>)
        ensures
            match env_lookup(self@, key@) {
                Some(v) => r matches Some(s) && s@ == v,
                None => r is None,
            },
    {
        let mut i: usize = 0;
        assert(self@.skip(0) =~= self@);
        while i < self.env.len()
            invariant
                i <= self.env@.len(),
                env_lookup(self@, key@) == env_lookup(self@.skip(i as int), key@),
            decreases self.env@.len() - i,
        {
            assert(self@.skip(i as int).drop_first() =~= self@.skip(i + 1));
            assert(self@.skip(i as int)[0] == self.env@[i as int]@);
            let (k, v) = split_entry(self.env[i].as_str());
            if let Some(v) = v {
                if same_text(k, key) {
                    return Some(v.to_string());
                }
            }
            i += 1;
        }
        None
    }

    /// Whether some entry starts with `prefix`.
    pub fn contains_prefix(&self, prefix: &str) -> (r: bool)
        ensures
            r == env_has_prefix(self@, prefix@),
    {
        let p = prefix.unicode_len();
        let mut i: usize = 0;
        while i < self.env.len()
            invariant
                i <= self.env@.len(),
                p == prefix@.len(),
                forall|k: int| 0 <= k < i ==> !(self@[k].len() >= prefix@.len() && self@[k].take(p as int) == prefix@),
            decreases self.env@.len() - i,
        {
            let e = self.env[i].as_str();
            let n = e.unicode_len();
            if n >= p {
                let head = e.substring_char(0, p);
                if same_text(head, prefix) {
                    assert(self@[i as int] == e@);
                    return true;
                }
            }
            i += 1;
        }
        false
    }

    /// The entries in order, then `None` where an `execve` vector holds its
    /// null terminator.
    pub fn as_ptr_vec(&self) -> (r: Vec<Option<&str>>)
        ensures
            env_nul_free(self@),
            r@.len() == self@.len() + 1,
            forall|i: int| 0 <= i < self@.len() ==> (#[trigger] r@[i] matches Some(s) && s@ == self@[i]),
            r@[self@.len() as int] is None,
    {
        proof {
            use_type_invariant(self);
        }
        let mut out: Vec<Option<&str>> = Vec::new();
        let mut i: usize = 0;
        while i < self.env.len()
            invariant
                i <= self.env@.len(),
                out@.len() == i,
                forall|k: int| 0 <= k < i ==> (#[trigger] out@[k] matches Some(s) && s@ == self@[k]),
            decreases self.env@.len() - i,
        {
            out.push(Some(self.env[i].as_str()));
            i += 1;
        }
        out.push(None);
        out
    }
}

/// The argument vector of a child, each argument as its bytes.
pub struct Argv {
    args: Vec<Vec<u8>>,
}

impl View for Argv {
    type V = Seq<Seq<u8>>;

    closed spec fn view(&self) -> Seq<Seq<u8>> {
        self.args@.map_values(|a: Vec<u8>| a@)
    }
}

impl Argv {
    /// No argument holds a zero byte, so each can be handed to `execve`.
    #[verifier::type_invariant]
    spec fn args_nul_free(&self) -> bool {
        args_nul_free(self@)
    }

    pub fn new() -> (r: Self)
        ensures
            r@ == Seq::<Seq<u8>>::empty(),
    {
        Argv { args: Vec::new() }
    }

    /// A copy of this argument vector.
    pub fn duplicate(&self) -> (r: Self)
        ensures
            r@ == self@,
    {
        proof {
            use_type_invariant(self);
        }
        let mut args: Vec<Vec<u8>> = Vec::new();
        let mut i: usize = 0;
        while i < self.args.len()
            invariant
                i <= self.args@.len(),
                args@.map_values(|a: Vec<u8>| a@) =~= self@.take(i as int),
            decreases self.args@.len() - i,
        {
            let a = vstd::slice::slice_to_vec(self.args[i].as_slice());
            assert(a@ == self@[i as int]);
            let ghost prev = args@.map_values(|a: Vec<u8>| a@);
            args.push(a);
            assert(args@.map_values(|a: Vec<u8>| a@) =~= prev.push(a@));
            assert(self@.take(i + 1) =~= self@.take(i as int).push(self@[i as int]));
            i += 1;
        }
        assert(self@.take(i as int) =~= self@);
        Argv { args }
    }

    /// Appends one argument.
    pub fn push(&mut self, arg: Vec<u8>)
        requires
            !arg@.contains(0u8),
        ensures
            final(self)@ == old(self)@.push(arg@),
    {
        proof {
            use_type_invariant(&*self);
        }
        let mut args: Vec<Vec<u8>> = Vec::new();
        std::mem::swap(&mut args, &mut self.args);
        let ghost before = args@.map_values(|a: Vec<u8>| a@);
        args.push(arg);
        assert(args@.map_values(|a: Vec<u8>| a@) =~= before.push(arg@));
        self.args = args;
    }

    /// The arguments in order, then `None` where an `execve` vector holds its
    /// null terminator.
    pub fn as_ptr_vec(&self) -> (r: Vec<Option<&[u8]>>)
        ensures
            args_nul_free(self@),
            r@.len() == self@.len() + 1,
            forall|i: int| 0 <= i < self@.len() ==> (#[trigger] r@[i] matches Some(a) && a@ == self@[i]),
            r@[self@.len() as int] is None,
    {
        proof {
            use_type_invariant(self);
        }
        let mut out: Vec<Option<&[u8]>> = Vec::new();
        let mut i: usize = 0;
        while i < self.args.len()
            invariant
                i <= self.args@.len(),
                out@.len() == i,
                forall|k: int| 0 <= k < i ==> (#[trigger] out@[k] matches Some(a) && a@ == self@[k]),
            decreases self.args@.len() - i,
        {
            out.push(Some(self.args[i].as_slice()));
            i += 1;
        }
        out.push(None);
        out
    }
}

} // verus!
