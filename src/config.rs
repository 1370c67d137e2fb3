//! Deck definitions: the prefixes shared by all decks, the one default deck,
//! and the choice of a deck by a prefix of its name.
use vstd::prelude::*;
use itertools::Itertools;
use crate::text::{chars_of, views};

verus! {

/// One deck of the configuration.
#[derive(Debug)]
pub struct DeckConfig {
    pub id: i64,
    pub name: String,
    pub description: Option<String>,
    pub is_default: bool,
    /// Headers that start with one of these become type-in-the-answer cards.
    pub type_in_prefixes: Vec<String>,
}

/// The value of a deck definition.
pub struct DeckModel {
    pub id: i64,
    pub name: Seq<char>,
    pub description: Option<Seq<char>>,
    pub is_default: bool,
    pub type_in_prefixes: Seq<Seq<char>>,
}

impl View for DeckConfig {
    type V = DeckModel;

    open spec fn view(&self) -> DeckModel {
        DeckModel {
            id: self.id,
            name: self.name@,
            description: match self.description {
                Some(d) => Some(d@),
                None => None,
            },
            is_default: self.is_default,
            type_in_prefixes: views(self.type_in_prefixes@),
        }
    }
}

/// Settings that apply to every deck.
#[derive(Debug)]
pub struct ConfigAll {
    pub type_in_prefixes: Vec<String>,
}

/// A whole configuration: the shared settings and the decks.
#[derive(Debug)]
pub struct Config {
    pub all: ConfigAll,
    pub decks: Vec<DeckConfig>,
}

/// Why a configuration or a deck choice was refused.
#[derive(Debug)]
pub enum ConfigError {
    /// Not exactly one deck is marked as the default.
    DefaultCount,
    /// No deck is marked as the default.
    NoDefault,
    /// No deck name starts with the choice.
    NoMatch { choice: String },
    /// Several deck names start with the choice; their names, in order.
    Ambiguous { choice: String, names: Vec<String> },
}

/// `a <= b` in the order of `str`: lexicographic by code point, which is the
/// order of the UTF-8 bytes.
pub open spec fn str_le(a: Seq<char>, b: Seq<char>) -> bool
    decreases a.len(),
{
    if a.len() == 0 {
        true
    } else if b.len() == 0 {
        false
    } else if a[0] != b[0] {
        (a[0] as u32) < (b[0] as u32)
    } else {
        str_le(a.drop_first(), b.drop_first())
    }
}

/// Each string is at most the next one.
pub open spec fn is_sorted(v: Seq<Seq<char>>) -> bool {
    forall|i: int| 0 <= i < v.len() - 1 ==> str_le(#[trigger] v[i], v[i + 1])
}

/// Each string is below the next one: sorted, without repeats.
pub open spec fn is_strictly_sorted(v: Seq<Seq<char>>) -> bool {
    forall|i: int| 0 <= i < v.len() - 1 ==> str_le(#[trigger] v[i], v[i + 1]) && v[i] != v[i + 1]
}

/// Relies on itertools' `Itertools::sorted`: the same strings, in ascending
/// order (it collects them and calls the stable `slice::sort`).
#[verifier::external_body]
fn sorted_strings(v: Vec<String>) -> (r: Vec<String>)
    ensures
        views(r@).to_multiset() == views(v@).to_multiset(),
        is_sorted(views(r@)),
{
    v.into_iter().sorted().collect()
}

proof fn lemma_contains_push(s: Seq<Seq<char>>, a: Seq<char>, x: Seq<char>)
    ensures
        s.push(a).contains(x) <==> (s.contains(x) || x == a),
{
    if s.contains(x) {
        let k = choose|k: int| 0 <= k < s.len() && s[k] == x;
        assert(s.push(a)[k] == x);
    }
    if x == a {
        assert(s.push(a)[s.len() as int] == a);
    }
    if s.push(a).contains(x) {
        let k = choose|k: int| 0 <= k < s.push(a).len() && s.push(a)[k] == x;
        if k < s.len() {
            assert(s[k] == x);
        }
    }
}

proof fn lemma_contains_concat(s: Seq<Seq<char>>, t: Seq<Seq<char>>, x: Seq<char>)
    ensures
        (s + t).contains(x) <==> (s.contains(x) || t.contains(x)),
{
    if s.contains(x) {
        let k = choose|k: int| 0 <= k < s.len() && s[k] == x;
        assert((s + t)[k] == x);
    }
    if t.contains(x) {
        let k = choose|k: int| 0 <= k < t.len() && t[k] == x;
        assert((s + t)[s.len() + k] == x);
    }
    if (s + t).contains(x) {
        let k = choose|k: int| 0 <= k < (s + t).len() && (s + t)[k] == x;
        if k < s.len() {
            assert(s[k] == x);
        } else {
            assert(t[k - s.len()] == x);
        }
    }
}

/// Keeps the first string of each run of equal ones.
pub fn dedup_sorted(v: Vec<String>) -> (r: Vec<String>)
    requires
        is_sorted(views(v@)),
    ensures
        is_strictly_sorted(views(r@)),
        forall|x: Seq<char>| views(r@).contains(x) <==> views(v@).contains(x),
{
    let mut out: Vec<String> = Vec::new();
    let mut i: usize = 0;
    while i < v.len()
        invariant
            i <= v@.len(),
            is_sorted(views(v@)),
            is_strictly_sorted(views(out@)),
            i > 0 ==> out@.len() > 0 && out@.last()@ == v@[i - 1]@,
            i == 0 ==> out@.len() == 0,
            forall|x: Seq<char>| views(out@).contains(x) <==> views(v@.take(i as int)).contains(x),
        decreases v@.len() - i,
    {
        let ghost vs = views(v@);
        let ghost prev = views(out@);
        proof {
            assert(views(v@.take(i + 1)) =~= views(v@.take(i as int)).push(vs[i as int]));
        }
        if out.len() == 0 || out[out.len() - 1] != v[i] {
            proof {
                if i > 0 {
                    assert(vs[i - 1] == prev.last());
                    assert(str_le(vs[i - 1], vs[i as int]));
                }
            }
            let c = v[i].clone();
            let ghost po = out@;
            out.push(c);
            assert(out@ == po.push(c));
            assert(views(out@) =~= prev.push(vs[i as int]));
            assert forall|x: Seq<char>| views(out@).contains(x) <==> views(v@.take(i + 1)).contains(
                x,
            ) by {
                lemma_contains_push(prev, vs[i as int], x);
                lemma_contains_push(views(v@.take(i as int)), vs[i as int], x);
            }
        } else {
            assert forall|x: Seq<char>| views(out@).contains(x) <==> views(v@.take(i + 1)).contains(
                x,
            ) by {
                lemma_contains_push(views(v@.take(i as int)), vs[i as int], x);
                if x == vs[i as int] {
                    assert(prev[prev.len() - 1] == x);
                }
            }
        }
        i = i + 1;
    }
    assert(v@.take(v@.len() as int) =~= v@);
    out
}

/// The strings of `own` and `shared` together, sorted, without repeats.
pub fn merge_prefixes(own: &Vec<String>, shared: &Vec<String>) -> (r: Vec<String>)
    ensures
        is_strictly_sorted(views(r@)),
        forall|x: Seq<char>| views(r@).contains(x) <==> (views(own@).contains(x) || views(
            shared@,
        ).contains(x)),
{
    let mut all: Vec<String> = Vec::new();
    let mut i: usize = 0;
    while i < own.len()
        invariant
            i <= own@.len(),
            views(all@) == views(own@).take(i as int),
        decreases own@.len() - i,
    {
        let c = own[i].clone();
        let ghost pa = all@;
        all.push(c);
        assert(all@ == pa.push(c));
        assert(views(all@) =~= views(pa).push(c@));
        assert(views(own@).take(i + 1) =~= views(own@).take(i as int).push(own@[i as int]@));
        i = i + 1;
    }
    let mut j: usize = 0;
    while j < shared.len()
        invariant
            j <= shared@.len(),
            views(all@) == views(own@) + views(shared@).take(j as int),
        decreases shared@.len() - j,
    {
        let c = shared[j].clone();
        let ghost pa = all@;
        all.push(c);
        assert(all@ == pa.push(c));
        assert(views(all@) =~= views(pa).push(c@));
        assert(views(shared@).take(j + 1) =~= views(shared@).take(j as int).push(
            shared@[j as int]@,
        ));
        assert(views(all@) =~= views(own@) + views(shared@).take(j + 1));
        j = j + 1;
    }
    assert(views(shared@).take(shared@.len() as int) =~= views(shared@));
    let ghost joined = views(all@);
    let sorted = sorted_strings(all);
    proof {
        views(sorted@).to_multiset_ensures();
        joined.to_multiset_ensures();
        assert forall|x: Seq<char>| views(sorted@).contains(x) <==> (views(own@).contains(x)
            || views(shared@).contains(x)) by {
            lemma_contains_concat(views(own@), views(shared@), x);
            assert(views(sorted@).to_multiset().count(x) == joined.to_multiset().count(x));
        }
    }
    dedup_sorted(sorted)
}

/// How many of the decks are marked as the default.
pub open spec fn default_count(decks: Seq<DeckModel>) -> nat
    decreases decks.len(),
{
    if decks.len() == 0 {
        0
    } else {
        default_count(decks.drop_last()) + if decks.last().is_default {
            1nat
        } else {
            0nat
        }
    }
}

/// The views of a sequence of decks.
pub open spec fn deck_views(v: Seq<DeckConfig>) -> Seq<DeckModel> {
    v.map_values(|d: DeckConfig| d@)
}

/// A deck once the shared prefixes are added: where `shared` holds any, its
/// prefixes are its own and the shared ones, sorted, without repeats.
pub open spec fn merged_deck(d: DeckModel, e: DeckModel, shared: Seq<Seq<char>>) -> bool {
    &&& e.id == d.id
    &&& e.name == d.name
    &&& e.description == d.description
    &&& e.is_default == d.is_default
    &&& if shared.len() == 0 {
        e.type_in_prefixes == d.type_in_prefixes
    } else {
        &&& is_strictly_sorted(e.type_in_prefixes)
        &&& forall|x: Seq<char>| #[trigger]
            e.type_in_prefixes.contains(x) <==> (d.type_in_prefixes.contains(x) || shared.contains(
                x,
            ))
    }
}

impl Config {
    /// The decks of the configuration, each with the shared type-in prefixes
    /// added; refused unless exactly one deck is the default.
    pub fn resolve_decks(self) -> (r: Result<Vec<DeckConfig>, ConfigError>)
        ensures
            r is Ok <==> default_count(deck_views(self.decks@)) == 1,
            r matches Err(e) ==> e is DefaultCount,
            r matches Ok(ds) ==> ds@.len() == self.decks@.len() && forall|i: int|
                0 <= i < ds@.len() ==> merged_deck(
                    #[trigger] self.decks@[i]@,
                    ds@[i]@,
                    views(self.all.type_in_prefixes@),
                ),
    {
        let Config { all, decks } = self;
        let shared = all.type_in_prefixes;
        let ghost dv = deck_views(decks@);
        let mut out: Vec<DeckConfig> = Vec::new();
        let mut count: usize = 0;
        let mut rest = decks;
        let ghost orig = rest@;
        let mut i: usize = 0;
        let n = rest.len();
        while i < n
            invariant
                n == orig.len(),
                i <= n,
                rest@.len() == n - i,
                forall|k: int| 0 <= k < rest@.len() ==> rest@[k] == orig[k + i],
                dv == deck_views(orig),
                out@.len() == i,
                forall|k: int| 0 <= k < i ==> merged_deck(#[trigger] orig[k]@, out@[k]@, views(shared@)),
                count == default_count(dv.take(i as int)),
                count <= i,
            decreases n - i,
        {
            let d = rest.remove(0);
            assert(d == orig[i as int]);
            assert(dv.take(i + 1).drop_last() =~= dv.take(i as int));
            let DeckConfig { id, name, description, is_default, type_in_prefixes } = d;
            let prefixes = if shared.len() > 0 {
                merge_prefixes(&type_in_prefixes, &shared)
            } else {
                type_in_prefixes
            };
            if is_default {
                count = count + 1;
            }
            let e = DeckConfig { id, name, description, is_default, type_in_prefixes: prefixes };
            out.push(e);
            i = i + 1;
        }
        assert(dv.take(n as int) =~= dv);
        if count != 1 {
            Err(ConfigError::DefaultCount)
        } else {
            Ok(out)
        }
    }
}

/// What `str::to_lowercase` returns for a string: it depends on the
/// characters alone.
pub uninterp spec fn lower_of(s: Seq<char>) -> Seq<char>;

/// Relies on `str::to_lowercase`: the lowercase form of the string.
#[verifier::external_body]
fn lowercase(s: &str) -> (r: String)
    ensures
        r@ == lower_of(s@),
{
    s.to_lowercase()
}

/// Whether `p` is a prefix of `s`.
pub open spec fn is_prefix(p: Seq<char>, s: Seq<char>) -> bool {
    p.len() <= s.len() && s.subrange(0, p.len() as int) == p
}

/// Whether the string `s` starts with the string `p`.
pub fn starts_with(s: &str, p: &str) -> (r: bool)
    ensures
        r == is_prefix(p@, s@),
{
    let sc = chars_of(s);
    let pc = chars_of(p);
    if pc.len() > sc.len() {
        return false;
    }
    let mut i: usize = 0;
    while i < pc.len()
        invariant
            sc@ == s@,
            pc@ == p@,
            pc@.len() <= sc@.len(),
            i <= pc@.len(),
            sc@.subrange(0, i as int) == pc@.subrange(0, i as int),
        decreases pc@.len() - i,
    {
        if sc[i] != pc[i] {
            assert(sc@.subrange(0, pc@.len() as int)[i as int] != pc@[i as int]);
            assert(sc@.subrange(0, pc@.len() as int) != pc@);
            return false;
        }
        i = i + 1;
        assert(sc@.subrange(0, i as int) =~= sc@.subrange(0, i - 1).push(sc@[i - 1]));
        assert(pc@.subrange(0, i as int) =~= pc@.subrange(0, i - 1).push(pc@[i - 1]));
    }
    assert(pc@.subrange(0, i as int) =~= pc@);
    true
}

/// The positions among the first `n` names of those that start with `p`, in order.
pub open spec fn matching(names: Seq<Seq<char>>, p: Seq<char>, n: int) -> Seq<int>
    decreases n,
{
    if n <= 0 {
        seq![]
    } else if is_prefix(p, names[n - 1]) {
        matching(names, p, n - 1).push(n - 1)
    } else {
        matching(names, p, n - 1)
    }
}

proof fn lemma_matching_bounds(names: Seq<Seq<char>>, p: Seq<char>, n: int)
    ensures
        forall|k: int| 0 <= k < matching(names, p, n).len() ==> 0 <= #[trigger] matching(
            names,
            p,
            n,
        )[k] < n,
    decreases n,
{
    if n > 0 {
        lemma_matching_bounds(names, p, n - 1);
        let m = matching(names, p, n - 1);
        if is_prefix(p, names[n - 1]) {
            assert forall|k: int| 0 <= k < matching(names, p, n).len() implies 0
                <= #[trigger] matching(names, p, n)[k] < n by {
                if k < m.len() {
                    assert(matching(names, p, n)[k] == m[k]);
                }
            }
        }
    }
}

/// The names of the given decks, at the given positions.
pub open spec fn names_at(decks: Seq<DeckModel>, ks: Seq<int>) -> Seq<Seq<char>> {
    ks.map_values(|k: int| decks[k].name)
}

/// The deck whose folded name starts with the folded choice, where exactly
/// one does. `folded_names` holds the decks' names and `folded_choice` the
/// choice, each in the same case-folded form.
pub fn pick_by_prefix(
    decks: Vec<DeckConfig>,
    folded_names: &Vec<String>,
    choice: String,
    folded_choice: &str,
) -> (r: Result<DeckConfig, ConfigError>)
    requires
        folded_names@.len() == decks@.len(),
    ensures
        ({
            let m = matching(views(folded_names@), folded_choice@, decks@.len() as int);
            &&& m.len() == 0 <==> r is Err && r->Err_0 is NoMatch
            &&& m.len() > 1 <==> r is Err && r->Err_0 is Ambiguous
            &&& m.len() == 1 <==> r is Ok
            &&& r matches Ok(d) ==> d == decks@[m[0]]
            &&& r matches Err(ConfigError::NoMatch { choice: c }) ==> c == choice
            &&& r matches Err(ConfigError::Ambiguous { choice: c, names }) ==> c == choice
                && views(names@) == names_at(deck_views(decks@), m)
            &&& !(r matches Err(ConfigError::DefaultCount)) && !(r matches Err(ConfigError::NoDefault))
        }),
{
    let ghost fv = views(folded_names@);
    let ghost dv = deck_views(decks@);
    let mut names: Vec<String> = Vec::new();
    let mut first: usize = 0;
    let mut i: usize = 0;
    while i < decks.len()
        invariant
            i <= decks@.len(),
            folded_names@.len() == decks@.len(),
            fv == views(folded_names@),
            dv == deck_views(decks@),
            views(names@) == names_at(dv, matching(fv, folded_choice@, i as int)),
            matching(fv, folded_choice@, i as int).len() > 0 ==> first == matching(
                fv,
                folded_choice@,
                i as int,
            )[0],
        decreases decks@.len() - i,
    {
        let ghost before = matching(fv, folded_choice@, i as int);
        if starts_with(folded_names[i].as_str(), folded_choice) {
            if names.len() == 0 {
                first = i;
            }
            let c = decks[i].name.clone();
            let ghost pn = names@;
            names.push(c);
            proof {
                assert(names@ == pn.push(c));
                assert(matching(fv, folded_choice@, i + 1) == before.push(i as int));
                assert(dv[i as int].name == c@);
                assert(names_at(dv, before.push(i as int)) =~= names_at(dv, before).push(c@));
                assert(views(names@) =~= views(pn).push(c@));
            }
        }
        i = i + 1;
    }
    let ghost m = matching(fv, folded_choice@, decks@.len() as int);
    proof {
        lemma_matching_bounds(fv, folded_choice@, decks@.len() as int);
    }
    if names.len() > 1 {
        Err(ConfigError::Ambiguous { choice, names })
    } else if names.len() == 0 {
        Err(ConfigError::NoMatch { choice })
    } else {
        let mut decks = decks;
        let d = decks.remove(first);
        Ok(d)
    }
}

/// The first deck marked as the default.
pub fn default_deck(decks: Vec<DeckConfig>) -> (r: Result<DeckConfig, ConfigError>)
    ensures
        r is Ok <==> exists|i: int| 0 <= i < decks@.len() && decks@[i].is_default,
        r matches Err(e) ==> e is NoDefault,
        r matches Ok(d) ==> exists|i: int|
            0 <= i < decks@.len() && d == decks@[i] && d.is_default && forall|j: int|
                0 <= j < i ==> !(#[trigger] decks@[j]).is_default,
{
    let mut i: usize = 0;
    while i < decks.len()
        invariant
            i <= decks@.len(),
            forall|j: int| 0 <= j < i ==> !(#[trigger] decks@[j]).is_default,
        decreases decks@.len() - i,
    {
        if decks[i].is_default {
            let mut decks = decks;
            let ghost orig = decks@;
            let d = decks.remove(i);
            assert(d == orig[i as int]);
            return Ok(d);
        }
        i = i + 1;
    }
    Err(ConfigError::NoDefault)
}

/// The deck to fill: with a choice, the one deck whose name starts with it,
/// case aside; without one, the default deck.
pub fn select_deck(decks: Vec<DeckConfig>, choice: Option<String>) -> (r: Result<
    DeckConfig,
    ConfigError,
>)
    ensures
        choice is None ==> (r is Ok <==> exists|i: int|
            0 <= i < decks@.len() && decks@[i].is_default),
        choice is None ==> (r matches Err(e) ==> e is NoDefault),
        choice is None ==> (r matches Ok(d) ==> exists|i: int|
            0 <= i < decks@.len() && d == decks@[i] && d.is_default && forall|j: int|
                0 <= j < i ==> !(#[trigger] decks@[j]).is_default),
        choice matches Some(c) ==> ({
            let m = matching(
                deck_views(decks@).map_values(|d: DeckModel| lower_of(d.name)),
                lower_of(c@),
                decks@.len() as int,
            );
            &&& m.len() == 0 <==> r is Err && r->Err_0 is NoMatch
            &&& m.len() > 1 <==> r is Err && r->Err_0 is Ambiguous
            &&& m.len() == 1 <==> r is Ok
            &&& r matches Ok(d) ==> d == decks@[m[0]]
            &&& r matches Err(ConfigError::NoMatch { choice: x }) ==> x == c
            &&& r matches Err(ConfigError::Ambiguous { choice: x, names }) ==> x == c && views(
                names@,
            ) == names_at(deck_views(decks@), m)
        }),
{
    match choice {
        None => default_deck(decks),
        Some(c) => {
            let mut folded: Vec<String> = Vec::new();
            let mut i: usize = 0;
            while i < decks.len()
                invariant
                    i <= decks@.len(),
                    views(folded@) == deck_views(decks@).map_values(
                        |d: DeckModel| lower_of(d.name),
                    ).take(i as int),
                decreases decks@.len() - i,
            {
                let f = lowercase(decks[i].name.as_str());
                let ghost pf = folded@;
                folded.push(f);
                assert(folded@ == pf.push(f));
                let ghost lv = deck_views(decks@).map_values(|d: DeckModel| lower_of(d.name));
                assert(lv[i as int] == lower_of(decks@[i as int].name@));
                assert(lv.take(i + 1) =~= lv.take(i as int).push(f@));
                assert(views(folded@) =~= views(pf).push(f@));
                i = i + 1;
            }
            assert(views(folded@) =~= deck_views(decks@).map_values(
                |d: DeckModel| lower_of(d.name),
            ));
            let fc = lowercase(c.as_str());
            pick_by_prefix(decks, &folded, c, fc.as_str())
        },
    }
}

} // verus!
