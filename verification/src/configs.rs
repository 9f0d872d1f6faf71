//! Per-guild configuration: an ordered list of one to five accepted
//! prefixes, defaulting to `<`.
//!
//! Configurations are never mutated in place: writers read a snapshot (or
//! the default), apply a pure transformation, persist the result through
//! the database collaborator, and then replace the cached entry.

use vstd::prelude::*;

use crate::text::push_char;

verus! {

/// The default prefix every guild starts with.
pub open spec fn default_prefix() -> Seq<char> {
    seq!['<']
}

/// Configuration of one guild.
pub struct GuildConfig {
    pub prefixes: Vec<String>,
}

impl GuildConfig {
    /// Between one and five prefixes.
    pub open spec fn wf(self) -> bool {
        1 <= self.prefixes@.len() <= 5
    }
}

pub fn clone_string_vec(v: &Vec<String>) -> (r: Vec<String>)
    ensures
        r@ == v@,
{
    let mut out: Vec<String> = Vec::new();
    let mut i: usize = 0;
    while i < v.len()
        invariant
            i <= v@.len(),
            out@ == v@.take(i as int),
        decreases v@.len() - i,
    {
        out.push(v[i].clone());
        proof {
            assert(v@.take(i + 1) =~= v@.take(i as int).push(v@[i as int]));
        }
        i += 1;
    }
    proof {
        assert(v@.take(v@.len() as int) =~= v@);
    }
    out
}

impl Clone for GuildConfig {
    fn clone(&self) -> (r: Self)
        ensures
            r.prefixes@ == self.prefixes@,
    {
        GuildConfig { prefixes: clone_string_vec(&self.prefixes) }
    }
}

impl Default for GuildConfig {
    /// The default configuration: the single prefix `<`.
    fn default() -> (r: Self)
        ensures
            r.prefixes@.len() == 1,
            r.prefixes@[0]@ == default_prefix(),
            r.wf(),
    {
        let mut p = String::new();
        push_char(&mut p, '<');
        proof {
            assert(p@ =~= default_prefix());
        }
        let mut prefixes: Vec<String> = Vec::new();
        prefixes.push(p);
        GuildConfig { prefixes }
    }
}

/// Lexicographic order on character sequences.
pub open spec fn lex_le(a: Seq<char>, b: Seq<char>) -> bool
    decreases a.len(),
{
    if a.len() == 0 {
        true
    } else if b.len() == 0 {
        false
    } else if a[0] != b[0] {
        a[0] < b[0]
    } else {
        lex_le(a.drop_first(), b.drop_first())
    }
}

/// The order prefixes are kept in: the default `<` first, the rest
/// lexicographic.
pub open spec fn prefix_le(a: Seq<char>, b: Seq<char>) -> bool {
    if a == default_prefix() {
        true
    } else if b == default_prefix() {
        false
    } else {
        lex_le(a, b)
    }
}

pub proof fn lemma_lex_le_total(a: Seq<char>, b: Seq<char>)
    ensures
        lex_le(a, b) || lex_le(b, a),
        lex_le(a, b) && lex_le(b, a) ==> a == b,
    decreases a.len(),
{
    if a.len() > 0 && b.len() > 0 && a[0] == b[0] {
        lemma_lex_le_total(a.drop_first(), b.drop_first());
        if lex_le(a, b) && lex_le(b, a) {
            assert(a.drop_first() == b.drop_first());
            assert forall|i: int| 0 <= i < a.len() implies a[i] == b[i] by {
                if i > 0 {
                    assert(a.drop_first()[i - 1] == a[i]);
                    assert(b.drop_first()[i - 1] == b[i]);
                }
            }
            assert(a =~= b);
        }
    }
}

pub proof fn lemma_lex_le_trans(a: Seq<char>, b: Seq<char>, c: Seq<char>)
    requires
        lex_le(a, b),
        lex_le(b, c),
    ensures
        lex_le(a, c),
    decreases a.len(),
{
    if a.len() > 0 && b.len() > 0 && c.len() > 0 {
        if a[0] == b[0] && b[0] == c[0] {
            lemma_lex_le_trans(a.drop_first(), b.drop_first(), c.drop_first());
        }
    }
}

pub proof fn lemma_prefix_le_total(a: Seq<char>, b: Seq<char>)
    ensures
        prefix_le(a, b) || prefix_le(b, a),
        prefix_le(a, b) && prefix_le(b, a) ==> a == b,
{
    lemma_lex_le_total(a, b);
}

pub proof fn lemma_prefix_le_trans(a: Seq<char>, b: Seq<char>, c: Seq<char>)
    requires
        prefix_le(a, b),
        prefix_le(b, c),
    ensures
        prefix_le(a, c),
{
    if a != default_prefix() && b != default_prefix() && c != default_prefix() {
        lemma_lex_le_trans(a, b, c);
    }
}

fn is_default_prefix(a: &String) -> (r: bool)
    ensures
        r == (a@ == default_prefix()),
{
    let len = a.as_str().unicode_len();
    if len != 1 {
        proof {
            assert(a@ != default_prefix());
        }
        return false;
    }
    let c = a.as_str().get_char(0);
    proof {
        if c == '<' {
            assert(a@ =~= default_prefix());
        } else {
            assert(a@ != default_prefix());
        }
    }
    c == '<'
}

fn lex_le_exec(a: &str, b: &str) -> (r: bool)
    ensures
        r == lex_le(a@, b@),
{
    let alen = a.unicode_len();
    let blen = b.unicode_len();
    proof {
        assert(a@.skip(0) =~= a@);
        assert(b@.skip(0) =~= b@);
    }
    let mut i: usize = 0;
    while i < alen && i < blen
        invariant
            i <= alen,
            i <= blen,
            alen == a@.len(),
            blen == b@.len(),
            lex_le(a@, b@) == lex_le(a@.skip(i as int), b@.skip(i as int)),
        decreases alen - i,
    {
        let ca = a.get_char(i);
        let cb = b.get_char(i);
        proof {
            assert(a@.skip(i as int)[0] == a@[i as int]);
            assert(b@.skip(i as int)[0] == b@[i as int]);
            assert(a@.skip(i as int).drop_first() =~= a@.skip(i + 1));
            assert(b@.skip(i as int).drop_first() =~= b@.skip(i + 1));
        }
        if ca != cb {
            return ca < cb;
        }
        i += 1;
    }
    proof {
        if i >= alen {
            assert(a@.skip(i as int).len() == 0);
        } else {
            assert(b@.skip(i as int).len() == 0);
            assert(a@.skip(i as int).len() > 0);
        }
    }
    alen <= blen
}

/// Compare two prefixes in the kept order.
fn prefix_le_exec(a: &String, b: &String) -> (r: bool)
    ensures
        r == prefix_le(a@, b@),
{
    if is_default_prefix(a) {
        return true;
    }
    if is_default_prefix(b) {
        return false;
    }
    lex_le_exec(a.as_str(), b.as_str())
}

/// Sorted in the kept order, no two prefixes equal.
pub open spec fn prefixes_sorted(s: Seq<String>) -> bool {
    forall|i: int, j: int|
        0 <= i < j < s.len() ==> prefix_le((#[trigger] s[i])@, (#[trigger] s[j])@) && s[i]@ != s[j]@
}

/// `x`'s view occurs among the views of `s`.
pub open spec fn view_in(s: Seq<String>, x: Seq<char>) -> bool {
    exists|i: int| 0 <= i < s.len() && (#[trigger] s[i])@ == x
}

/// The index of a minimal prefix under the kept order.
fn min_prefix_index(v: &Vec<String>) -> (r: usize)
    requires
        v@.len() >= 1,
    ensures
        r < v@.len(),
        forall|j: int| 0 <= j < v@.len() ==> prefix_le(v@[r as int]@, (#[trigger] v@[j])@),
{
    let mut best: usize = 0;
    proof {
        lemma_prefix_le_total(v@[0]@, v@[0]@);
    }
    let mut i: usize = 1;
    while i < v.len()
        invariant
            best < i <= v@.len(),
            forall|j: int| 0 <= j < i ==> prefix_le(v@[best as int]@, (#[trigger] v@[j])@),
        decreases v@.len() - i,
    {
        if prefix_le_exec(&v[i], &v[best]) {
            proof {
                lemma_prefix_le_total(v@[i as int]@, v@[i as int]@);
                assert forall|j: int| 0 <= j < i implies prefix_le(
                    v@[i as int]@,
                    (#[trigger] v@[j])@,
                ) by {
                    lemma_prefix_le_trans(v@[i as int]@, v@[best as int]@, v@[j]@);
                }
            }
            best = i;
        } else {
            proof {
                lemma_prefix_le_total(v@[i as int]@, v@[best as int]@);
            }
        }
        i += 1;
    }
    best
}

/// Sort prefixes into the kept order and drop duplicates: the result is
/// sorted, duplicate-free, and holds exactly the views of the input.
fn sort_dedup_prefixes(input: Vec<String>) -> (r: Vec<String>)
    ensures
        prefixes_sorted(r@),
        forall|i: int| 0 <= i < r@.len() ==> view_in(input@, (#[trigger] r@[i])@),
        forall|j: int| 0 <= j < input@.len() ==> view_in(r@, (#[trigger] input@[j])@),
        r@.len() <= input@.len(),
        input@.len() > 0 ==> r@.len() > 0,
{
    let ghost orig = input@;
    let mut v = input;
    let mut out: Vec<String> = Vec::new();
    while v.len() > 0
        invariant
            prefixes_sorted(out@),
            out@.len() + v@.len() <= orig.len(),
            forall|k: int, j: int|
                0 <= k < out@.len() && 0 <= j < v@.len() ==> prefix_le(
                    (#[trigger] out@[k])@,
                    (#[trigger] v@[j])@,
                ),
            forall|i: int| 0 <= i < out@.len() ==> view_in(orig, (#[trigger] out@[i])@),
            forall|i: int| 0 <= i < v@.len() ==> view_in(orig, (#[trigger] v@[i])@),
            forall|j: int|
                0 <= j < orig.len() ==> view_in(out@, (#[trigger] orig[j])@) || view_in(
                    v@,
                    orig[j]@,
                ),
            out@.len() == 0 ==> v@.len() == orig.len(),
        decreases v@.len(),
    {
        let ghost pre_v = v@;
        let ghost pre_out = out@;
        let m = min_prefix_index(&v);
        let e = v.remove(m);
        let duplicate = if out.len() > 0 {
            let last = out.len() - 1;
            out[last] == e
        } else {
            false
        };
        proof {
            assert(v@ == pre_v.remove(m as int));
            assert forall|j: int| 0 <= j < v@.len() implies prefix_le(e@, (#[trigger] v@[j])@)
                && view_in(orig, v@[j]@) by {
                if j < m {
                    assert(v@[j] == pre_v[j]);
                } else {
                    assert(v@[j] == pre_v[j + 1]);
                }
            }
        }
        if !duplicate {
            out.push(e);
            proof {
                assert(out@ == pre_out.push(e));
                assert forall|i: int, j: int| 0 <= i < j < out@.len() implies prefix_le(
                    (#[trigger] out@[i])@,
                    (#[trigger] out@[j])@,
                ) && out@[i]@ != out@[j]@ by {
                    if j == out@.len() - 1 {
                        assert(out@[j] == e);
                        assert(prefix_le(pre_out[i]@, e@));
                        if out@[i]@ == e@ {
                            let last = pre_out.len() - 1;
                            assert(prefix_le(pre_out[i]@, pre_out[last]@) || i == last);
                            assert(prefix_le(pre_out[last]@, e@));
                            if i < last {
                                lemma_prefix_le_total(pre_out[last]@, e@);
                                lemma_prefix_le_trans(pre_out[last]@, e@, pre_out[i]@);
                                lemma_prefix_le_total(pre_out[i]@, pre_out[last]@);
                                assert(pre_out[i]@ == pre_out[last]@);
                                assert(false);
                            } else {
                                assert(pre_out[last]@ == e@);
                                assert(false);
                            }
                        }
                    }
                }
            }
        } else {
            proof {
                let last = pre_out.len() - 1;
                assert(pre_out[last]@ == e@);
                assert(view_in(out@, e@));
            }
        }
        proof {
            assert forall|j: int|
                0 <= j < orig.len() implies view_in(out@, (#[trigger] orig[j])@) || view_in(
                v@,
                orig[j]@,
            ) by {
                if view_in(pre_out, orig[j]@) {
                    let i = choose|i: int| 0 <= i < pre_out.len() && (#[trigger] pre_out[i])@
                        == orig[j]@;
                    assert(out@[i]@ == orig[j]@);
                } else if view_in(pre_v, orig[j]@) {
                    let i = choose|i: int| 0 <= i < pre_v.len() && (#[trigger] pre_v[i])@
                        == orig[j]@;
                    if i == m {
                        assert(pre_v[m as int]@ == e@);
                        if duplicate {
                        } else {
                            assert(out@[out@.len() - 1]@ == e@);
                        }
                    } else if i < m {
                        assert(v@[i] == pre_v[i]);
                    } else {
                        assert(v@[i - 1] == pre_v[i]);
                    }
                }
            }
        }
    }
    proof {
        assert forall|j: int| 0 <= j < orig.len() implies view_in(out@, (#[trigger] orig[j])@) by {
        }
        if orig.len() > 0 {
            assert(view_in(out@, orig[0]@));
        }
    }
    out
}

/// What a prefix-update command asked for.
#[derive(Clone, Copy, PartialEq, Eq, Structural, Debug)]
pub enum PrefixAction {
    Add,
    Remove,
}

/// Prefixes of `s` whose view differs from `x`.
pub open spec fn filter_ne(s: Seq<String>, x: Seq<char>) -> Seq<String>
    decreases s.len(),
{
    if s.len() == 0 {
        s
    } else if s[0]@ == x {
        filter_ne(s.drop_first(), x)
    } else {
        seq![s[0]] + filter_ne(s.drop_first(), x)
    }
}

proof fn lemma_filter_ne_len(s: Seq<String>, x: Seq<char>)
    ensures
        filter_ne(s, x).len() <= s.len(),
    decreases s.len(),
{
    if s.len() > 0 {
        lemma_filter_ne_len(s.drop_first(), x);
    }
}

/// Removing prefixes one argument at a time: each argument's occurrences
/// leave the list; if the list empties, the argument just removed becomes
/// the only prefix and the removal stops.
pub open spec fn spec_remove_prefixes(s: Seq<String>, args: Seq<String>, k: int) -> Seq<String>
    decreases args.len() - k,
{
    if k < 0 || k >= args.len() {
        s
    } else {
        let f = filter_ne(s, args[k]@);
        if f.len() == 0 {
            f.push(args[k])
        } else {
            spec_remove_prefixes(f, args, k + 1)
        }
    }
}

fn filter_ne_exec(v: &Vec<String>, x: &String) -> (r: Vec<String>)
    ensures
        r@ == filter_ne(v@, x@),
{
    let mut out: Vec<String> = Vec::new();
    proof {
        assert(v@.skip(0) =~= v@);
        assert(out@ + filter_ne(v@, x@) =~= filter_ne(v@, x@));
    }
    let mut i: usize = 0;
    while i < v.len()
        invariant
            i <= v@.len(),
            filter_ne(v@, x@) == out@ + filter_ne(v@.skip(i as int), x@),
        decreases v@.len() - i,
    {
        let ghost pre_out = out@;
        proof {
            assert(v@.skip(i as int).len() == v@.len() - i);
            assert(v@.skip(i as int)[0] == v@[i as int]);
            assert(v@.skip(i as int).drop_first() =~= v@.skip(i + 1));
            assert(filter_ne(v@.skip(i as int).drop_first(), x@) == filter_ne(v@.skip(i + 1), x@));
        }
        if !v[i].eq(x) {
            out.push(v[i].clone());
            proof {
                assert(filter_ne(v@.skip(i as int), x@) == seq![v@[i as int]] + filter_ne(
                    v@.skip(i + 1),
                    x@,
                ));
                assert(out@ + filter_ne(v@.skip(i + 1), x@) =~= pre_out + filter_ne(
                    v@.skip(i as int),
                    x@,
                ));
            }
        }
        i += 1;
    }
    proof {
        assert(v@.skip(v@.len() as int).len() == 0);
        assert(out@ + filter_ne(v@.skip(v@.len() as int), x@) =~= out@);
    }
    out
}

/// Apply one prefix-update command to a configuration, pure transformation
/// only — the caller persists the result and then replaces the cached
/// entry.
///
/// Adding extends the list, sorts it into the kept order (`<` first),
/// drops duplicates and keeps at most five. Removing drops each argument
/// in turn; a removal that would empty the list keeps that argument as the
/// only prefix instead.
pub fn apply_prefix_update(config: &GuildConfig, action: PrefixAction, args: &Vec<String>) -> (r:
    GuildConfig)
    requires
        config.wf(),
        1 <= args@.len() <= 5,
    ensures
        r.wf(),
        action is Add ==> {
            &&& prefixes_sorted(r.prefixes@)
            &&& forall|i: int|
                0 <= i < r.prefixes@.len() ==> view_in(config.prefixes@ + args@, (
                #[trigger] r.prefixes@[i])@)
            &&& forall|j: int|
                0 <= j < (config.prefixes@ + args@).len() ==> view_in(
                    r.prefixes@,
                    ((#[trigger] (config.prefixes@ + args@)[j])@),
                ) || (r.prefixes@.len() == 5 && prefix_le(
                    r.prefixes@[4]@,
                    (config.prefixes@ + args@)[j]@,
                ))
        },
        action is Remove ==> r.prefixes@ == spec_remove_prefixes(config.prefixes@, args@, 0),
    {
    match action {
        PrefixAction::Add => {
            let mut combined = clone_string_vec(&config.prefixes);
            let mut extra = clone_string_vec(args);
            combined.append(&mut extra);
            let ghost union = config.prefixes@ + args@;
            proof {
                assert(combined@ == union);
            }
            let mut sorted = sort_dedup_prefixes(combined);
            let ghost full = sorted@;
            sorted.truncate(5);
            proof {
                assert(sorted@.len() >= 1);
                assert forall|i: int| 0 <= i < sorted@.len() implies view_in(
                    union,
                    (#[trigger] sorted@[i])@,
                ) by {
                    assert(sorted@[i] == full[i]);
                }
                assert forall|j: int| 0 <= j < union.len() implies view_in(
                    sorted@,
                    ((#[trigger] union[j])@),
                ) || (sorted@.len() == 5 && prefix_le(sorted@[4]@, union[j]@)) by {
                    assert(view_in(full, union[j]@));
                    let i = choose|i: int| 0 <= i < full.len() && (#[trigger] full[i])@
                        == union[j]@;
                    if full.len() <= 5 {
                        assert(sorted@ == full);
                        assert(sorted@[i]@ == union[j]@);
                    } else if i < 5 {
                        assert(sorted@[i] == full[i]);
                        assert(sorted@[i]@ == union[j]@);
                    } else {
                        assert(prefix_le(full[4]@, full[i]@));
                        assert(sorted@[4] == full[4]);
                    }
                }
            }
            GuildConfig { prefixes: sorted }
        },
        PrefixAction::Remove => {
            let mut cur = clone_string_vec(&config.prefixes);
            let ghost orig = cur@;
            let mut k: usize = 0;
            while k < args.len()
                invariant
                    action is Remove,
                    orig == config.prefixes@,
                    k <= args@.len(),
                    1 <= args@.len() <= 5,
                    cur@.len() <= 5,
                    cur@.len() >= 1,
                    spec_remove_prefixes(orig, args@, 0) == spec_remove_prefixes(
                        cur@,
                        args@,
                        k as int,
                    ),
                decreases args@.len() - k,
            {
                let filtered = filter_ne_exec(&cur, &args[k]);
                proof {
                    lemma_filter_ne_len(cur@, args@[k as int]@);
                }
                if filtered.is_empty() {
                    let mut result = filtered;
                    result.push(args[k].clone());
                    proof {
                        assert(spec_remove_prefixes(cur@, args@, k as int) == filter_ne(
                            cur@,
                            args@[k as int]@,
                        ).push(args@[k as int]));
                        assert(result@ =~= filter_ne(cur@, args@[k as int]@).push(
                            args@[k as int],
                        ));
                    }
                    return GuildConfig { prefixes: result };
                }
                proof {
                    assert(spec_remove_prefixes(cur@, args@, k as int) == spec_remove_prefixes(
                        filtered@,
                        args@,
                        k + 1,
                    ));
                }
                cur = filtered;
                k += 1;
            }
            GuildConfig { prefixes: cur }
        },
    }
}

/// Concurrent hash map of an outside crate; it backs the guild-config
/// cache. Declared so the verifier can carry values of it opaquely.
#[verifier::external_type_specification]
#[verifier::external_body]
#[verifier::reject_recursive_types(K)]
#[verifier::reject_recursive_types(V)]
#[verifier::reject_recursive_types(S)]
pub struct ExFlurryMap<K, V, S>(flurry::HashMap<K, V, S>);

/// The hash state flurry's map uses by default.
#[verifier::external_type_specification]
#[verifier::external_body]
pub struct ExFlurryHashBuilder(flurry::DefaultHashBuilder);

/// The cache map: guild id to guild configuration.
pub type GuildMap = flurry::HashMap<u64, GuildConfig>;

/// The contents of the cache map: which prefix list each guild id maps to.
pub uninterp spec fn guild_map_model(m: GuildMap) -> Map<u64, Seq<Seq<char>>>;

/// The contents of a cache map that holds no guilds.
pub open spec fn no_guild_configs() -> Map<u64, Seq<Seq<char>>> {
    Map::empty()
}

/// Relies on flurry::HashMap::new: the fresh map is empty.
#[verifier::external_body]
fn guild_map_new() -> (fresh: GuildMap)
    ensures
        guild_map_model(fresh) == no_guild_configs(),
{
    flurry::HashMap::new()
}

/// Relies on flurry::HashMap::get (through a pinned guard): a copy of the
/// value stored under the key, if any.
#[verifier::external_body]
fn guild_map_get(m: &GuildMap, k: u64) -> (r: Option<GuildConfig>)
    ensures
        match r {
            Some(c) => guild_map_model(*m).dom().contains(k) && c.prefixes.deep_view()
                == guild_map_model(*m)[k],
            None => !guild_map_model(*m).dom().contains(k),
        },
{
    m.pin().get(&k).cloned()
}

/// Relies on flurry::HashMap::insert (through a pinned guard): maps the
/// key to the value.
#[verifier::external_body]
fn guild_map_insert(m: &mut GuildMap, k: u64, v: GuildConfig)
    ensures
        guild_map_model(*final(m)) == guild_map_model(*old(m)).insert(k, v.prefixes.deep_view()),
{
    m.pin().insert(k, v);
}

/// Read-heavy cache from guild id to configuration. Readers take value
/// copies; writers replace whole entries, never mutating a shared one in
/// place.
pub struct GuildConfigs {
    map: GuildMap,
}

impl GuildConfigs {
    pub closed spec fn model(self) -> Map<u64, Seq<Seq<char>>> {
        guild_map_model(self.map)
    }

    /// Every cached prefix list has between one and five prefixes.
    pub open spec fn wf(self) -> bool {
        forall|g: u64| #[trigger]
            self.model().dom().contains(g) ==> 1 <= self.model()[g].len() <= 5
    }

    pub fn new() -> (r: Self)
        ensures
            r.wf(),
            r.model() == no_guild_configs(),
    {
        let r = GuildConfigs { map: guild_map_new() };
        proof {
            assert(r.model().dom() =~= Set::empty());
        }
        r
    }

    /// A copy of the guild's cached configuration, if any.
    pub fn get(&self, guild: u64) -> (r: Option<GuildConfig>)
        ensures
            match r {
                Some(c) => self.model().dom().contains(guild) && c.prefixes.deep_view()
                    == self.model()[guild],
                None => !self.model().dom().contains(guild),
            },
    {
        guild_map_get(&self.map, guild)
    }

    /// Replace the guild's cached configuration.
    pub fn insert(&mut self, guild: u64, config: GuildConfig)
        requires
            old(self).wf(),
            config.wf(),
        ensures
            final(self).wf(),
            final(self).model() == old(self).model().insert(guild, config.prefixes.deep_view()),
    {
        let ghost pre = self.model();
        guild_map_insert(&mut self.map, guild, config);
        proof {
            assert(config.prefixes.deep_view().len() == config.prefixes@.len());
            assert forall|g2: u64| #[trigger]
                self.model().dom().contains(g2) implies 1 <= self.model()[g2].len() <= 5 by {
                if g2 != guild {
                    assert(pre.dom().contains(g2));
                    assert(self.model()[g2] == pre[g2]);
                }
            }
        }
    }

    /// The read path: a cached configuration, or the default for a guild
    /// not yet cached — the second component says the caller must persist
    /// the default and insert it, so later readers hit the cache.
    pub fn lookup_or_default(&self, guild: u64) -> (r: (GuildConfig, bool))
        ensures
            r.1 == !self.model().dom().contains(guild),
            r.1 ==> r.0.prefixes@.len() == 1 && r.0.prefixes@[0]@ == default_prefix(),
            !r.1 ==> r.0.prefixes.deep_view() == self.model()[guild],
            self.wf() ==> r.0.wf(),
    {
        match self.get(guild) {
            Some(config) => {
                proof {
                    assert(config.prefixes.deep_view().len() == config.prefixes@.len());
                }
                (config, false)
            },
            None => (GuildConfig::default(), true),
        }
    }

    /// The guild's accepted prefixes (the default list for an uncached
    /// guild), plus the persist-me flag of the read path.
    pub fn guild_prefixes(&self, guild: u64) -> (r: (Vec<String>, bool))
        ensures
            r.1 == !self.model().dom().contains(guild),
            !r.1 ==> r.0.deep_view() == self.model()[guild],
            r.1 ==> r.0@.len() == 1 && r.0@[0]@ == default_prefix(),
            self.wf() ==> 1 <= r.0@.len() <= 5,
    {
        let (config, missing) = self.lookup_or_default(guild);
        proof {
            assert(config.prefixes.deep_view().len() == config.prefixes@.len());
        }
        (config.prefixes, missing)
    }

    /// The guild's first prefix; the fixed `<` outside guilds.
    pub fn guild_first_prefix(&self, guild: Option<u64>) -> (r: String)
        requires
            self.wf(),
        ensures
            guild is None ==> r@ == default_prefix(),
            guild is Some && !self.model().dom().contains(guild->0) ==> r@ == default_prefix(),
            guild is Some && self.model().dom().contains(guild->0) ==> r@ == self.model()[
                guild->0
            ][0],
    {
        match guild {
            Some(g) => {
                let (config, missing) = self.lookup_or_default(g);
                proof {
                    assert(config.prefixes.deep_view().len() == config.prefixes@.len());
                    if !missing {
                        assert(config.prefixes.deep_view()[0] == config.prefixes@[0]@);
                    }
                }
                let first = config.prefixes[0].clone();
                first
            },
            None => {
                let mut p = String::new();
                push_char(&mut p, '<');
                proof {
                    assert(p@ =~= default_prefix());
                }
                p
            },
        }
    }
}

} // verus!
