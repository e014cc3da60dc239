use vstd::prelude::*;
use vstd::string::StrSliceExecFns;
use vstd::string::StringExecFns;
use vstd::pervasive::VecAdditionalExecFns;
use crate::strutil::is_prefix;
use crate::strutil::occurs;
use crate::strutil::matches_at;
use crate::strutil::contains_str;
use crate::strutil::str_eq;
use crate::strutil::string_from_chars;

verus! {

/// Store of template keys (such as `"{temp}"`) and their current values.
/// Keys are unique; insertion order is kept.
pub struct PropertySet {
    pairs: Vec<(String, String)>,
}

/// The map sense of a key/value pair sequence: later pairs win, though with
/// unique keys the order never matters.
pub open spec fn pairs_map(ps: Seq<(Seq<char>, Seq<char>)>) -> Map<Seq<char>, Seq<char>>
    decreases ps.len(),
{
    if ps.len() == 0 {
        Map::empty()
    } else {
        pairs_map(ps.drop_last()).insert(ps.last().0, ps.last().1)
    }
}

/// No two pairs share a key.
pub open spec fn distinct_keys(ps: Seq<(Seq<char>, Seq<char>)>) -> bool {
    forall|i: int, j: int| 0 <= i < j < ps.len() ==> (#[trigger] ps[i]).0 != (#[trigger] ps[j]).0
}

impl View for PropertySet {
    type V = Seq<(Seq<char>, Seq<char>)>;

    closed spec fn view(&self) -> Seq<(Seq<char>, Seq<char>)> {
        Seq::new(self.pairs@.len(), |i: int| (self.pairs@[i].0@, self.pairs@[i].1@))
    }
}

impl PropertySet {
    /// Keys are unique.
    pub open spec fn wf(self) -> bool {
        distinct_keys(self@)
    }

    /// The store read as a map from key to value.
    pub open spec fn as_map(self) -> Map<Seq<char>, Seq<char>> {
        pairs_map(self@)
    }

    /// An empty store.
    pub fn new() -> (r: PropertySet)
        ensures
            r.wf(),
            r@ == Seq::<(Seq<char>, Seq<char>)>::empty(),
            r.as_map() == Map::<Seq<char>, Seq<char>>::empty(),
    {
        let r = PropertySet { pairs: Vec::new() };
        proof {
            assert(r@ =~= Seq::<(Seq<char>, Seq<char>)>::empty());
        }
        r
    }

    /// Insert or overwrite the value of `key`.
    pub fn set(&mut self, key: &str, value: &str)
        requires
            old(self).wf(),
        ensures
            final(self).wf(),
            final(self).as_map() == old(self).as_map().insert(key@, value@),
            (forall|j: int| 0 <= j < old(self)@.len() ==> (#[trigger] old(self)@[j]).0 != key@)
                ==> final(self)@ == old(self)@.push((key@, value@)),
            forall|j: int|
                0 <= j < old(self)@.len() && (#[trigger] old(self)@[j]).0 == key@
                    ==> final(self)@ == old(self)@.update(j, (key@, value@)),
    {
        let ghost ps = self@;
        let n = self.pairs.len();
        let mut i: usize = 0;
        while i < n
            invariant
                n == self.pairs.len(),
                i <= n,
                self@ == ps,
                old(self)@ == ps,
                distinct_keys(ps),
                forall|j: int| 0 <= j < i ==> (#[trigger] ps[j]).0 != key@,
            decreases n - i,
        {
            if str_eq(self.pairs[i].0.as_str(), key) {
                self.pairs.set(i, (String::from_str(key), String::from_str(value)));
                proof {
                    assert(self@ =~= ps.update(i as int, (key@, value@)));
                    lemma_pairs_map_update(ps, i as int, key@, value@);
                    assert forall|x: int, y: int| 0 <= x < y < self@.len() implies (
                    #[trigger] self@[x]).0 != (#[trigger] self@[y]).0 by {
                        assert(self@[x].0 == ps[x].0);
                        assert(self@[y].0 == ps[y].0);
                    }
                    assert(ps[i as int].0 == key@);
                    assert forall|j: int|
                        0 <= j < ps.len() && (#[trigger] ps[j]).0 == key@ implies self@
                        == ps.update(j, (key@, value@)) by {
                        if j < i as int {
                            assert(ps[j].0 != key@);
                        } else if j > i as int {
                            assert(ps[i as int].0 != ps[j].0);
                        }
                    }
                }
                return ;
            }
            i = i + 1;
        }
        self.pairs.push((String::from_str(key), String::from_str(value)));
        proof {
            assert(self@ =~= ps.push((key@, value@)));
            assert(self@.drop_last() =~= ps);
            assert(self.as_map() == pairs_map(ps).insert(key@, value@));
        }
    }

    /// The current value of `key`, if present.
    pub fn get(&self, key: &str) -> (r: Option<&String>)
        requires
            self.wf(),
        ensures
            match r {
                Some(v) => self.as_map().contains_key(key@) && v@ == self.as_map()[key@],
                None => !self.as_map().contains_key(key@),
            },
    {
        let ghost ps = self@;
        let n = self.pairs.len();
        let mut i: usize = 0;
        while i < n
            invariant
                self.wf(),
                ps == self@,
                n == self.pairs.len(),
                i <= n,
                forall|j: int| 0 <= j < i ==> (#[trigger] ps[j]).0 != key@,
            decreases n - i,
        {
            if str_eq(self.pairs[i].0.as_str(), key) {
                proof {
                    lemma_pairs_map_at(ps, i as int);
                }
                return Some(&self.pairs[i].1);
            }
            i = i + 1;
        }
        proof {
            lemma_pairs_map_absent(ps, key@);
        }
        None
    }
}

/// With unique keys, replacing the pair that holds `k` updates the map at `k`.
proof fn lemma_pairs_map_update(ps: Seq<(Seq<char>, Seq<char>)>, i: int, k: Seq<char>, v: Seq<char>)
    requires
        distinct_keys(ps),
        0 <= i < ps.len(),
        ps[i].0 == k,
    ensures
        pairs_map(ps.update(i, (k, v))) == pairs_map(ps).insert(k, v),
    decreases ps.len(),
{
    let ps2 = ps.update(i, (k, v));
    if i == ps.len() - 1 {
        assert(ps2.drop_last() =~= ps.drop_last());
        assert(pairs_map(ps2) =~= pairs_map(ps).insert(k, v));
    } else {
        assert(ps2.drop_last() =~= ps.drop_last().update(i, (k, v)));
        lemma_pairs_map_update(ps.drop_last(), i, k, v);
        assert(ps.last().0 != k);
        assert(pairs_map(ps2) =~= pairs_map(ps).insert(k, v));
    }
}

/// With unique keys, the pair at `i` is what the map holds for its key.
proof fn lemma_pairs_map_at(ps: Seq<(Seq<char>, Seq<char>)>, i: int)
    requires
        distinct_keys(ps),
        0 <= i < ps.len(),
    ensures
        pairs_map(ps).contains_key(ps[i].0),
        pairs_map(ps)[ps[i].0] == ps[i].1,
    decreases ps.len(),
{
    if i < ps.len() - 1 {
        lemma_pairs_map_at(ps.drop_last(), i);
        assert(ps.last().0 != ps[i].0);
    }
}

/// A key held by no pair is absent from the map.
proof fn lemma_pairs_map_absent(ps: Seq<(Seq<char>, Seq<char>)>, k: Seq<char>)
    requires
        forall|j: int| 0 <= j < ps.len() ==> (#[trigger] ps[j]).0 != k,
    ensures
        !pairs_map(ps).contains_key(k),
    decreases ps.len(),
{
    if ps.len() > 0 {
        lemma_pairs_map_absent(ps.drop_last(), k);
    }
}

/// First pair whose (non-empty) key is a prefix of `s`, in pair order.
pub open spec fn first_match(ps: Seq<(Seq<char>, Seq<char>)>, s: Seq<char>) -> Option<
    (Seq<char>, Seq<char>),
>
    decreases ps.len(),
{
    if ps.len() == 0 {
        None
    } else if ps[0].0.len() > 0 && is_prefix(ps[0].0, s) {
        Some(ps[0])
    } else {
        first_match(ps.skip(1), s)
    }
}

/// What [`first_match`] returns: a matching pair of `ps` if any matches,
/// `None` otherwise.
pub proof fn lemma_first_match_props(ps: Seq<(Seq<char>, Seq<char>)>, s: Seq<char>)
    ensures
        match first_match(ps, s) {
            Some(kv) => 0 < kv.0.len() <= s.len() && is_prefix(kv.0, s) && (exists|i: int|
                0 <= i < ps.len() && ps[i] == kv),
            None => forall|i: int|
                0 <= i < ps.len() ==> !((#[trigger] ps[i]).0.len() > 0 && is_prefix(ps[i].0, s)),
        },
    decreases ps.len(),
{
    if ps.len() > 0 {
        if !(ps[0].0.len() > 0 && is_prefix(ps[0].0, s)) {
            lemma_first_match_props(ps.skip(1), s);
            match first_match(ps.skip(1), s) {
                Some(kv) => {
                    let i = choose|i: int| 0 <= i < ps.skip(1).len() && ps.skip(1)[i] == kv;
                    assert(ps[i + 1] == kv);
                },
                None => {
                    assert forall|i: int|
                        0 <= i < ps.len() implies !((#[trigger] ps[i]).0.len() > 0 && is_prefix(
                        ps[i].0,
                        s,
                    )) by {
                        if i > 0 {
                            assert(ps.skip(1)[i - 1] == ps[i]);
                        }
                    }
                },
            }
        }
    }
}

/// Skipping pairs that do not match leaves [`first_match`] unchanged.
pub proof fn lemma_first_match_skip(ps: Seq<(Seq<char>, Seq<char>)>, s: Seq<char>, m: int)
    requires
        0 <= m <= ps.len(),
        forall|i: int| 0 <= i < m ==> !((#[trigger] ps[i]).0.len() > 0 && is_prefix(ps[i].0, s)),
    ensures
        first_match(ps, s) == first_match(ps.skip(m), s),
    decreases m,
{
    if m == 0 {
        assert(ps.skip(0) =~= ps);
    } else {
        assert(!(ps[0].0.len() > 0 && is_prefix(ps[0].0, s)));
        assert(first_match(ps, s) == first_match(ps.skip(1), s));
        assert forall|i: int|
            0 <= i < m - 1 implies !((#[trigger] ps.skip(1)[i]).0.len() > 0 && is_prefix(
            ps.skip(1)[i].0,
            s,
        )) by {
            assert(ps.skip(1)[i] == ps[i + 1]);
        }
        lemma_first_match_skip(ps.skip(1), s, m - 1);
        assert(ps.skip(1).skip(m - 1) =~= ps.skip(m));
    }
}

/// Substitution of every pair of `ps` in `s`: scan left to right, replace the
/// first matching key at each position by its value, copy unmatched
/// characters.
pub open spec fn subst(ps: Seq<(Seq<char>, Seq<char>)>, s: Seq<char>) -> Seq<char>
    decreases s.len(),
    via subst_decreases
{
    if s.len() == 0 {
        Seq::empty()
    } else {
        match first_match(ps, s) {
            Some(kv) => kv.1 + subst(ps, s.skip(kv.0.len() as int)),
            None => seq![s[0]] + subst(ps, s.skip(1)),
        }
    }
}

#[via_fn]
proof fn subst_decreases(ps: Seq<(Seq<char>, Seq<char>)>, s: Seq<char>) {
    if s.len() > 0 {
        lemma_first_match_props(ps, s);
    }
}

/// True when pair `j` makes the synthetic spacer non-empty: its key carries
/// the visibility-info prefix, its value is non-empty, and the key occurs in
/// the format string.
pub open spec fn space_trigger(
    ps: Seq<(Seq<char>, Seq<char>)>,
    f: Seq<char>,
    j: int,
) -> bool {
    is_prefix("{iss_"@, ps[j].0) && ps[j].1.len() > 0 && occurs(f, ps[j].0)
}

/// True when the synthetic `{iss_space}` key renders as one space.
pub open spec fn space_flag(ps: Seq<(Seq<char>, Seq<char>)>, f: Seq<char>) -> bool {
    exists|j: int| 0 <= j < ps.len() && space_trigger(ps, f, j)
}

/// The pair list used for rendering: the stored pairs followed by the
/// synthetic `{iss_space}` pair.
pub open spec fn render_pairs(ps: Seq<(Seq<char>, Seq<char>)>, f: Seq<char>) -> Seq<
    (Seq<char>, Seq<char>),
> {
    ps.push(
        ("{iss_space}"@, if space_flag(ps, f) {
            " "@
        } else {
            ""@
        }),
    )
}

/// What rendering `f` against the pairs `ps` yields.
pub open spec fn render_spec(f: Seq<char>, ps: Seq<(Seq<char>, Seq<char>)>) -> Seq<char> {
    subst(render_pairs(ps, f), f)
}

/// Append the characters of `s` to `out`.
pub fn push_str_chars(out: &mut Vec<char>, s: &str)
    ensures
        final(out)@ == old(out)@ + s@,
{
    let n = s.unicode_len();
    let mut j: usize = 0;
    while j < n
        invariant
            n == s@.len(),
            j <= n,
            out@ == old(out)@ + s@.take(j as int),
        decreases n - j,
    {
        out.push(s.get_char(j));
        proof {
            assert(out@ =~= old(out)@ + s@.take(j + 1));
        }
        j = j + 1;
    }
    proof {
        assert(s@.take(n as int) =~= s@);
    }
}

/// Index of the first stored pair whose key matches at position `i` of
/// `format`, if any.
fn find_pair_match(props: &PropertySet, format: &str, i: usize) -> (r: Option<usize>)
    requires
        i <= format@.len(),
    ensures
        match r {
            Some(m) => 0 <= m < props@.len() && first_match(props@, format@.skip(i as int))
                == Some(props@[m as int]),
            None => first_match(props@, format@.skip(i as int)) is None,
        },
{
    let ghost ps = props@;
    let ghost t = format@.skip(i as int);
    let n = props.pairs.len();
    let mut m: usize = 0;
    while m < n
        invariant
            n == props.pairs.len(),
            ps == props@,
            t == format@.skip(i as int),
            i <= format@.len(),
            m <= n,
            forall|x: int| 0 <= x < m ==> !((#[trigger] ps[x]).0.len() > 0 && is_prefix(ps[x].0, t)),
        decreases n - m,
    {
        let klen = props.pairs[m].0.as_str().unicode_len();
        if klen > 0 && matches_at(format, i, props.pairs[m].0.as_str()) {
            proof {
                lemma_first_match_skip(ps, t, m as int);
                assert(ps.skip(m as int)[0] == ps[m as int]);
            }
            return Some(m);
        }
        m = m + 1;
    }
    proof {
        lemma_first_match_skip(ps, t, n as int);
        assert(ps.skip(n as int).len() == 0);
    }
    None
}

/// Render `format` against the stored pairs: every occurrence of a stored
/// key is replaced by its value, scanning left to right, and the synthetic
/// `{iss_space}` key renders as one space exactly when some key with the
/// `{iss_` prefix and a non-empty value occurs in `format`.
///
/// The result is a function of `format` and the stored pairs alone, so
/// rendering the same store twice yields identical output.
pub fn format_string(format: &str, props: &PropertySet) -> (r: String)
    ensures
        r@ == render_spec(format@, props@),
{
    let ghost ps = props@;
    let ghost f = format@;
    // decide the synthetic spacer first
    let n_pairs = props.pairs.len();
    let mut flag = false;
    let mut t: usize = 0;
    while t < n_pairs
        invariant
            n_pairs == props.pairs.len(),
            ps == props@,
            f == format@,
            t <= n_pairs,
            flag == exists|j: int| 0 <= j < t && space_trigger(ps, f, j),
        decreases n_pairs - t,
    {
        let key = props.pairs[t].0.as_str();
        let hit = matches_at(key, 0, "{iss_") && props.pairs[t].1.as_str().unicode_len() > 0
            && contains_str(format, key);
        proof {
            assert(key@.skip(0) =~= key@);
            if hit {
                assert(space_trigger(ps, f, t as int));
            }
        }
        flag = flag || hit;
        t = t + 1;
    }
    proof {
        assert(flag == space_flag(ps, f));
    }
    let ghost eps = render_pairs(ps, f);
    let n = format.unicode_len();
    let mut out: Vec<char> = Vec::new();
    let mut i: usize = 0;
    proof {
        assert(f.skip(0) =~= f);
        assert(out@ + subst(eps, f) =~= subst(eps, f));
    }
    while i < n
        invariant
            n == f.len(),
            f == format@,
            ps == props@,
            eps == render_pairs(ps, f),
            flag == space_flag(ps, f),
            i <= n,
            out@ + subst(eps, f.skip(i as int)) == subst(eps, f),
        decreases n - i,
    {
        let ghost rem = f.skip(i as int);
        match find_pair_match(props, format, i) {
            Some(m) => {
                let klen = props.pairs[m].0.as_str().unicode_len();
                proof {
                    lemma_first_match_props(ps, rem);
                    lemma_first_match_push_some(ps, eps[eps.len() - 1], rem);
                    assert(eps.drop_last() =~= ps);
                    assert(f.skip(i as int).skip(klen as int) =~= f.skip(i + klen));
                }
                push_str_chars(&mut out, props.pairs[m].1.as_str());
                i = i + klen;
            },
            None => {
                proof {
                    lemma_first_match_props(ps, rem);
                    lemma_first_match_skip(eps, rem, ps.len() as int);
                    assert(eps.drop_last() =~= ps);
                    assert forall|x: int|
                        0 <= x < ps.len() implies !((#[trigger] eps[x]).0.len() > 0 && is_prefix(
                        eps[x].0,
                        rem,
                    )) by {
                        assert(eps[x] == ps[x]);
                    }
                    assert(eps.skip(ps.len() as int) =~= seq![eps[eps.len() - 1]]);
                }
                if matches_at(format, i, "{iss_space}") {
                    let klen = "{iss_space}".unicode_len();
                    proof {
                        let extra = eps[eps.len() - 1];
                        assert(extra.0 == "{iss_space}"@);
                        assert(is_prefix("{iss_space}"@, rem));
                        reveal_strlit("{iss_space}");
                        assert(extra.0.len() > 0);
                        assert(seq![extra][0] == extra);
                        assert(first_match(seq![extra], rem) == Some(extra));
                        assert(first_match(eps, rem) == Some(extra));
                        assert(f.skip(i as int).skip(klen as int) =~= f.skip(i + klen));
                        assert(subst(eps, rem) == extra.1 + subst(eps, f.skip(i + klen)));
                    }
                    if flag {
                        push_str_chars(&mut out, " ");
                    } else {
                        push_str_chars(&mut out, "");
                    }
                    i = i + klen;
                } else {
                    proof {
                        let extra = eps[eps.len() - 1];
                        assert(!is_prefix("{iss_space}"@, rem));
                        assert(extra.0 == "{iss_space}"@);
                        assert(seq![extra][0] == extra);
                        assert(seq![extra].skip(1) =~= Seq::<(Seq<char>, Seq<char>)>::empty());
                        assert(first_match(Seq::<(Seq<char>, Seq<char>)>::empty(), rem) is None);
                        assert(first_match(seq![extra], rem) is None);
                        assert(first_match(eps, rem) is None);
                        assert(rem[0] == f[i as int]);
                        assert(f.skip(i as int).skip(1) =~= f.skip(i + 1));
                        assert(subst(eps, rem) == seq![f[i as int]] + subst(eps, f.skip(i + 1)));
                    }
                    out.push(format.get_char(i));
                    i = i + 1;
                }
            },
        }
    }
    proof {
        assert(f.skip(n as int) =~= Seq::<char>::empty());
        assert(out@ =~= subst(eps, f));
    }
    string_from_chars(&out)
}

/// When some stored pair matches, the synthetic pair at the end changes
/// nothing about the first match.
proof fn lemma_first_match_push_some(
    ps: Seq<(Seq<char>, Seq<char>)>,
    extra: (Seq<char>, Seq<char>),
    s: Seq<char>,
)
    requires
        first_match(ps, s) is Some,
    ensures
        first_match(ps.push(extra), s) == first_match(ps, s),
    decreases ps.len(),
{
    if ps.len() > 0 {
        assert(ps.push(extra)[0] == ps[0]);
        if !(ps[0].0.len() > 0 && is_prefix(ps[0].0, s)) {
            lemma_first_match_push_some(ps.skip(1), extra, s);
            assert(ps.push(extra).skip(1) =~= ps.skip(1).push(extra));
        }
    }
}

/// A well-formed template key: `'{'`, a non-empty body free of braces, `'}'`.
pub open spec fn wf_key(k: Seq<char>) -> bool {
    &&& k.len() >= 3
    &&& k[0] == '{'
    &&& k[k.len() - 1] == '}'
    &&& forall|i: int| 0 < i < k.len() - 1 ==> k[i] != '{' && k[i] != '}'
}

/// No brace character occurs in `s`.
pub open spec fn brace_free(s: Seq<char>) -> bool {
    forall|i: int| 0 <= i < s.len() ==> s[i] != '{' && s[i] != '}'
}

/// Well-formed keys are prefix-free: a key that is a prefix of another key
/// followed by anything equals that other key.
proof fn lemma_wf_key_prefix_free(k1: Seq<char>, k2: Seq<char>, t: Seq<char>)
    requires
        wf_key(k1),
        wf_key(k2),
        is_prefix(k1, k2 + t),
    ensures
        k1 == k2,
{
    let s = k2 + t;
    assert(forall|i: int| 0 <= i < k1.len() ==> k1[i] == s.subrange(0, k1.len() as int)[i]);
    assert(forall|i: int| 0 <= i < k1.len() ==> k1[i] == s[i]);
    if k1.len() <= k2.len() {
        assert(k1[k1.len() - 1] == k2[k1.len() - 1]);
        assert(k1[k1.len() - 1] == '}');
        if k1.len() < k2.len() {
            assert(0 < k1.len() - 1 < k2.len() - 1);
            assert(k2[k1.len() - 1] != '}');
            assert(false);
        }
        assert(k1 =~= k2);
    } else {
        assert(k1[k2.len() - 1] == s[k2.len() - 1]);
        assert(s[k2.len() - 1] == k2[k2.len() - 1]);
        assert(k2[k2.len() - 1] == '}');
        assert(0 < k2.len() - 1 < k1.len() - 1);
        assert(k1[k2.len() - 1] != '}');
        assert(false);
    }
}

/// Concatenation keeps freedom from braces.
proof fn lemma_brace_free_concat(a: Seq<char>, b: Seq<char>)
    requires
        brace_free(a),
        brace_free(b),
    ensures
        brace_free(a + b),
{
    assert forall|i: int| 0 <= i < (a + b).len() implies (a + b)[i] != '{' && (a + b)[i]
        != '}' by {
        if i < a.len() {
            assert((a + b)[i] == a[i]);
        } else {
            assert((a + b)[i] == b[i - a.len()]);
        }
    }
}

/// Substituting into a string that is a concatenation of keys of `ps` yields
/// a string built only from the corresponding values.
proof fn lemma_subst_only_keys(ps: Seq<(Seq<char>, Seq<char>)>, toks: Seq<Seq<char>>)
    requires
        forall|i: int| 0 <= i < ps.len() ==> wf_key((#[trigger] ps[i]).0),
        forall|i: int| 0 <= i < ps.len() ==> brace_free((#[trigger] ps[i]).1),
        forall|j: int|
            0 <= j < toks.len() ==> exists|i: int|
                0 <= i < ps.len() && (#[trigger] ps[i]).0 == (#[trigger] toks[j]),
    ensures
        brace_free(subst(ps, toks.flatten())),
    decreases toks.len(),
{
    if toks.len() == 0 {
        assert(toks.flatten() =~= Seq::<char>::empty());
    } else {
        let s = toks.flatten();
        let rest = toks.drop_first();
        assert(s == toks.first() + rest.flatten());
        let k = toks[0];
        let i0 = choose|i: int| 0 <= i < ps.len() && (#[trigger] ps[i]).0 == k;
        assert(is_prefix(k, k + rest.flatten())) by {
            assert((k + rest.flatten()).subrange(0, k.len() as int) =~= k);
        }
        lemma_first_match_props(ps, s);
        match first_match(ps, s) {
            Some(kv) => {
                let im = choose|i: int| 0 <= i < ps.len() && ps[i] == kv;
                lemma_wf_key_prefix_free(kv.0, k, rest.flatten());
                assert(s.skip(kv.0.len() as int) =~= rest.flatten());
                assert forall|j: int|
                    0 <= j < rest.len() implies exists|i: int|
                    0 <= i < ps.len() && (#[trigger] ps[i]).0 == (#[trigger] rest[j]) by {
                    assert(rest[j] == toks[j + 1]);
                    let iw = choose|i: int|
                        0 <= i < ps.len() && (#[trigger] ps[i]).0 == toks[j + 1];
                    assert(0 <= iw < ps.len() && ps[iw].0 == rest[j]);
                }
                lemma_subst_only_keys(ps, rest);
                assert(subst(ps, s) == kv.1 + subst(ps, rest.flatten()));
                lemma_brace_free_concat(kv.1, subst(ps, rest.flatten()));
            },
            None => {
                assert(!(ps[i0].0.len() > 0 && is_prefix(ps[i0].0, s)));
                assert(false);
            },
        }
    }
}

/// Law: a format string composed solely of recognized keys renders with no
/// brace character left.  Recognized keys are the stored keys and the
/// synthetic `{iss_space}` key; every stored key must be well formed and
/// every stored value free of braces.
pub proof fn lemma_render_no_braces(
    f: Seq<char>,
    ps: Seq<(Seq<char>, Seq<char>)>,
    toks: Seq<Seq<char>>,
)
    requires
        f == toks.flatten(),
        forall|i: int| 0 <= i < ps.len() ==> wf_key((#[trigger] ps[i]).0),
        forall|i: int| 0 <= i < ps.len() ==> brace_free((#[trigger] ps[i]).1),
        forall|j: int|
            0 <= j < toks.len() ==> (#[trigger] toks[j]) == "{iss_space}"@ || exists|i: int|
                0 <= i < ps.len() && (#[trigger] ps[i]).0 == toks[j],
    ensures
        brace_free(render_spec(f, ps)),
{
    let eps = render_pairs(ps, f);
    reveal_strlit("{iss_space}");
    reveal_strlit(" ");
    reveal_strlit("");
    assert(wf_key("{iss_space}"@)) by {
        assert("{iss_space}"@.len() == 11);
        assert("{iss_space}"@[0] == '{');
        assert("{iss_space}"@[10] == '}');
    }
    assert forall|i: int| 0 <= i < eps.len() implies wf_key((#[trigger] eps[i]).0) by {
        if i < ps.len() {
            assert(eps[i] == ps[i]);
        }
    }
    assert forall|i: int| 0 <= i < eps.len() implies brace_free((#[trigger] eps[i]).1) by {
        if i < ps.len() {
            assert(eps[i] == ps[i]);
        } else {
            assert(eps[i].1 == if space_flag(ps, f) {
                " "@
            } else {
                ""@
            });
            assert(" "@.len() == 1 && " "@[0] == ' ');
            assert(""@.len() == 0);
        }
    }
    assert forall|j: int|
        0 <= j < toks.len() implies exists|i: int|
        0 <= i < eps.len() && (#[trigger] eps[i]).0 == (#[trigger] toks[j]) by {
        if toks[j] == "{iss_space}"@ {
            assert(eps[eps.len() - 1].0 == toks[j]);
        } else {
            let iw = choose|i: int| 0 <= i < ps.len() && (#[trigger] ps[i]).0 == toks[j];
            assert(eps[iw] == ps[iw]);
            assert(0 <= iw < eps.len() && eps[iw].0 == toks[j]);
        }
    }
    lemma_subst_only_keys(eps, toks);
}

} // verus!
