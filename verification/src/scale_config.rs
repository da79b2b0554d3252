//! A scale *set* configuration: a comma-separated list of entries,
//! each either `pattern:domain` or a bare domain (the catch-all,
//! placed last whatever its input position); `domain` is a scale
//! domain string or the literal `auto`. Autoscale groups are later
//! materialized against the actual dataset, one shared scale per
//! group.

use vstd::prelude::*;
use crate::sample::{has_present, present_max, present_min};
use crate::scale::{
    config_err_matches,
    config_parses,
    config_scale_val,
    min_max,
    pick_spec,
    scales_model,
    Scale,
    ScaleError,
    Scales,
};
use crate::series::{Series, SeriesModel};
use crate::text::{contains_seq, split_seq, split_str, str_contains, str_eq};

verus! {

/// One configured scale: fully defined, or an autoscale group.
#[derive(Debug, Clone, Copy)]
pub enum ScaleType {
    Static(Scale),
    Auto,
}

/// Whether a domain-or-`auto` string parses.
pub open spec fn stype_parses(c: Seq<char>) -> bool {
    c == "auto"@ || config_parses(c)
}

/// The scale type a domain-or-`auto` string denotes.
pub open spec fn stype_val(c: Seq<char>) -> ScaleType {
    if c == "auto"@ {
        ScaleType::Auto
    } else {
        ScaleType::Static(config_scale_val(c))
    }
}

impl ScaleType {
    pub fn new(conf: &str) -> (r: Result<ScaleType, ScaleError>)
        ensures
            match r {
                Ok(t) => stype_parses(conf@) && t == stype_val(conf@),
                Err(e) => !stype_parses(conf@) && config_err_matches(conf@, e),
            },
    {
        if str_eq(conf, "auto") {
            Ok(ScaleType::Auto)
        } else {
            match Scale::from_config(conf) {
                Ok(s) => Ok(ScaleType::Static(s)),
                Err(e) => Err(e),
            }
        }
    }
}

/// One entry of a scale set: the title pattern it applies to (empty
/// for the catch-all) and its scale or autoscale marker.
#[derive(Debug, Clone)]
pub struct ScaleConfig {
    pub pattern: String,
    pub config: ScaleType,
}

impl ScaleConfig {
    pub fn new(pattern: &str, conf: &str) -> (r: Result<ScaleConfig, ScaleError>)
        ensures
            match r {
                Ok(c) => stype_parses(conf@) && c.pattern@ == pattern@ && c.config == stype_val(
                    conf@,
                ),
                Err(e) => !stype_parses(conf@) && config_err_matches(conf@, e),
            },
    {
        match ScaleType::new(conf) {
            Ok(t) => Ok(ScaleConfig { pattern: pattern.to_owned(), config: t }),
            Err(e) => Err(e),
        }
    }
}

/// The colon-separated pieces of one configuration entry.
pub open spec fn entry_parts(e: Seq<char>) -> Seq<Seq<char>> {
    split_seq(e, seq![':'])
}

/// The domain piece of an entry: the whole entry for a catch-all,
/// the part after the colon otherwise.
pub open spec fn entry_conf(e: Seq<char>) -> Seq<char> {
    if entry_parts(e).len() == 1 {
        entry_parts(e)[0]
    } else {
        entry_parts(e)[1]
    }
}

pub open spec fn entry_ok(e: Seq<char>) -> bool {
    entry_parts(e).len() <= 2 && stype_parses(entry_conf(e))
}

pub open spec fn entries_ok(es: Seq<Seq<char>>) -> bool {
    forall|i: int| 0 <= i < es.len() ==> entry_ok(#[trigger] es[i])
}

/// Index of the first entry that does not parse, or the count.
pub open spec fn first_bad_entry(es: Seq<Seq<char>>) -> int
    decreases es.len(),
{
    if es.len() == 0 {
        0
    } else if !entry_ok(es[0]) {
        0
    } else {
        1 + first_bad_entry(es.drop_first())
    }
}

proof fn lemma_first_bad_entry(es: Seq<Seq<char>>)
    ensures
        0 <= first_bad_entry(es) <= es.len(),
        first_bad_entry(es) < es.len() ==> !entry_ok(es[first_bad_entry(es)]),
        forall|k: int| 0 <= k < first_bad_entry(es) ==> entry_ok(#[trigger] es[k]),
        first_bad_entry(es) == es.len() ==> entries_ok(es),
    decreases es.len(),
{
    if es.len() > 0 && entry_ok(es[0]) {
        lemma_first_bad_entry(es.drop_first());
        assert forall|k: int| 0 <= k < first_bad_entry(es) implies entry_ok(#[trigger] es[k]) by {
            if k > 0 {
                assert(es.drop_first()[k - 1] == es[k]);
            }
        }
        if first_bad_entry(es) == es.len() {
            assert forall|k: int| 0 <= k < es.len() implies entry_ok(#[trigger] es[k]) by {
                if k > 0 {
                    assert(es.drop_first()[k - 1] == es[k]);
                }
            }
        }
    }
}

/// Model of a list of configured entries: pattern and scale type.
pub open spec fn cfg_models(v: Seq<ScaleConfig>) -> Seq<(Seq<char>, ScaleType)> {
    v.map_values(|c: ScaleConfig| (c.pattern@, c.config))
}

/// The patterned (two-piece) entries of the configuration, in order.
pub open spec fn kept_configs(es: Seq<Seq<char>>) -> Seq<(Seq<char>, ScaleType)>
    decreases es.len(),
{
    if es.len() == 0 {
        Seq::empty()
    } else {
        let rest = kept_configs(es.drop_last());
        if entry_parts(es.last()).len() == 2 {
            rest.push((entry_parts(es.last())[0], stype_val(entry_parts(es.last())[1])))
        } else {
            rest
        }
    }
}

/// The last catch-all (one-piece) entry, which supersedes earlier
/// ones, if any.
pub open spec fn last_wildcard(es: Seq<Seq<char>>) -> Option<Seq<char>>
    decreases es.len(),
{
    if es.len() == 0 {
        None
    } else if entry_parts(es.last()).len() == 1 {
        Some(es.last())
    } else {
        last_wildcard(es.drop_last())
    }
}

/// The entry list a whole configuration denotes: patterned entries in
/// order, then the catch-all with the empty pattern.
pub open spec fn scales_config_models(conf: Seq<char>) -> Seq<(Seq<char>, ScaleType)> {
    let es = split_seq(conf, seq![',']);
    match last_wildcard(es) {
        Some(w) => kept_configs(es).push((Seq::empty(), stype_val(w))),
        None => kept_configs(es),
    }
}

/// The parsed scale-set configuration: patterned entries first, the
/// catch-all last.
#[derive(Debug)]
pub struct ScalesConfig {
    pub entries: Vec<ScaleConfig>,
}

impl ScalesConfig {
    /// Parses `entry(,entry)*`; the first offending entry decides the
    /// error.
    #[verifier::rlimit(60)]
    #[verifier::loop_isolation(false)]
    pub fn new(conf: &str) -> (r: Result<ScalesConfig, ScaleError>)
        ensures
            ({
                let es = split_seq(conf@, seq![',']);
                match r {
                    Ok(c) => entries_ok(es) && cfg_models(c.entries@) == scales_config_models(
                        conf@,
                    ),
                    Err(e) => !entries_ok(es) && {
                        let bad = es[first_bad_entry(es)];
                        if entry_parts(bad).len() > 2 {
                            e matches ScaleError::BadFormat(s) && s@ == conf@
                        } else {
                            config_err_matches(entry_conf(bad), e)
                        }
                    },
                }
            }),
    {
        proof {
            reveal_strlit(",");
            assert(","@ =~= seq![',']);
            reveal_strlit(":");
            assert(":"@ =~= seq![':']);
        }
        let ghost es = split_seq(conf@, seq![',']);
        let raw = split_str(conf, ",");
        proof {
            assert(raw@.map_values(|t: String| t@) == es);
        }
        let mut kept: Vec<ScaleConfig> = Vec::new();
        let mut wildcard: Option<ScaleConfig> = None;
        let mut i: usize = 0;
        while i < raw.len()
            invariant
                i <= raw@.len(),
                forall|k: int| 0 <= k < i ==> entry_ok(#[trigger] es[k]),
                cfg_models(kept@) =~= kept_configs(es.take(i as int)),
                match last_wildcard(es.take(i as int)) {
                    Some(w) => wildcard matches Some(c) && c.pattern@ == Seq::<char>::empty()
                        && c.config == stype_val(w),
                    None => wildcard is None,
                },
            decreases raw@.len() - i,
        {
            proof {
                assert(es[i as int] == raw@[i as int]@);
                assert(es.take(i + 1 as int).drop_last() =~= es.take(i as int));
                assert(es.take(i + 1 as int).last() == es[i as int]);
            }
            let parts = split_str(raw[i].as_str(), ":");
            proof {
                assert(parts@.map_values(|t: String| t@) == entry_parts(es[i as int]));
            }
            if parts.len() == 1 {
                match ScaleConfig::new("", parts[0].as_str()) {
                    Ok(c) => {
                        proof {
                            reveal_strlit("");
                            assert(""@ =~= Seq::<char>::empty());
                            assert(parts@[0]@ == entry_conf(es[i as int]));
                            crate::text::lemma_first_match(es[i as int], seq![':']);
                            let e = es[i as int];
                            let fm = crate::text::first_match(e, seq![':']);
                            if fm + 1 <= e.len() {
                                crate::text::lemma_split_count(
                                    e.subrange(fm + 1, e.len() as int),
                                    seq![':'],
                                );
                            }
                            assert(entry_parts(es[i as int])[0] == es[i as int]);
                        }
                        wildcard = Some(c);
                    },
                    Err(e) => {
                        proof {
                            assert(parts@[0]@ == entry_conf(es[i as int]));
                            assert(!entry_ok(es[i as int]));
                            lemma_first_bad_entry(es);
                            assert(first_bad_entry(es) == i);
                        }
                        return Err(e);
                    },
                }
            } else if parts.len() == 2 {
                match ScaleConfig::new(parts[0].as_str(), parts[1].as_str()) {
                    Ok(c) => {
                        proof {
                            assert(parts@[0]@ == entry_parts(es[i as int])[0]);
                            assert(parts@[1]@ == entry_conf(es[i as int]));
                        }
                        kept.push(c);
                        proof {
                            assert(cfg_models(kept@) =~= kept_configs(es.take(i + 1 as int)));
                        }
                    },
                    Err(e) => {
                        proof {
                            assert(parts@[1]@ == entry_conf(es[i as int]));
                            assert(!entry_ok(es[i as int]));
                            lemma_first_bad_entry(es);
                            assert(first_bad_entry(es) == i);
                        }
                        return Err(e);
                    },
                }
            } else {
                proof {
                    assert(entry_parts(es[i as int]).len() > 2);
                    assert(!entry_ok(es[i as int]));
                    lemma_first_bad_entry(es);
                    assert(first_bad_entry(es) == i);
                }
                return Err(ScaleError::BadFormat(conf.to_owned()));
            }
            i += 1;
        }
        proof {
            assert(es.take(es.len() as int) =~= es);
            lemma_first_bad_entry(es);
        }
        let mut entries = kept;
        match wildcard {
            Some(c) => {
                entries.push(c);
                proof {
                    assert(cfg_models(entries@) =~= scales_config_models(conf@));
                }
            },
            None => {
                proof {
                    assert(cfg_models(entries@) =~= scales_config_models(conf@));
                }
            },
        }
        Ok(ScalesConfig { entries })
    }
}

/// The first entry whose pattern occurs in the title, provided it is
/// an autoscale group.
pub open spec fn find_auto_spec(ms: Seq<(Seq<char>, ScaleType)>, title: Seq<char>) -> Option<int>
    decreases ms.len(),
{
    if ms.len() == 0 {
        None
    } else if contains_seq(title, ms[0].0) {
        if ms[0].1 is Auto {
            Some(0int)
        } else {
            None
        }
    } else {
        match find_auto_spec(ms.drop_first(), title) {
            Some(i) => Some(i + 1),
            None => None,
        }
    }
}

/// First index of `k` in an association list.
pub open spec fn assoc_index(m: Seq<(Seq<char>, (int, int))>, k: Seq<char>) -> int
    decreases m.len(),
{
    if m.len() == 0 {
        0
    } else if m[0].0 == k {
        0
    } else {
        1 + assoc_index(m.drop_first(), k)
    }
}

pub open spec fn assoc_has(m: Seq<(Seq<char>, (int, int))>, k: Seq<char>) -> bool {
    assoc_index(m, k) < m.len()
}

proof fn lemma_assoc_index(m: Seq<(Seq<char>, (int, int))>, k: Seq<char>)
    ensures
        0 <= assoc_index(m, k) <= m.len(),
        assoc_has(m, k) ==> m[assoc_index(m, k)].0 == k,
        forall|j: int| 0 <= j < assoc_index(m, k) ==> m[j].0 != k,
    decreases m.len(),
{
    if m.len() > 0 && m[0].0 != k {
        lemma_assoc_index(m.drop_first(), k);
        assert forall|j: int| 0 <= j < assoc_index(m, k) implies m[j].0 != k by {
            if j > 0 {
                assert(m.drop_first()[j - 1] == m[j]);
            }
        }
    }
}

/// Widening an association entry with new bounds, or appending one.
pub open spec fn bounds_upd(
    m: Seq<(Seq<char>, (int, int))>,
    k: Seq<char>,
    mn: int,
    mx: int,
) -> Seq<(Seq<char>, (int, int))> {
    if assoc_has(m, k) {
        let i = assoc_index(m, k);
        let cur = m[i].1;
        m.update(
            i,
            (
                k,
                (
                    if mn < cur.0 {
                        mn
                    } else {
                        cur.0
                    },
                    if mx > cur.1 {
                        mx
                    } else {
                        cur.1
                    },
                ),
            ),
        )
    } else {
        m.push((k, (mn, mx)))
    }
}

/// The per-group min/max bounds the dataset induces: for each series
/// matched by an autoscale group with at least one present value, the
/// group's bounds absorb that series' observed range.
pub open spec fn bounds_spec(
    cfgs: Seq<(Seq<char>, ScaleType)>,
    sers: Seq<SeriesModel>,
) -> Seq<(Seq<char>, (int, int))>
    decreases sers.len(),
{
    if sers.len() == 0 {
        Seq::empty()
    } else {
        let rest = bounds_spec(cfgs, sers.drop_last());
        let s = sers.last();
        match find_auto_spec(cfgs, s.title) {
            Some(i) => if has_present(s.values) {
                bounds_upd(rest, cfgs[i].0, present_min(s.values), present_max(s.values))
            } else {
                rest
            },
            None => rest,
        }
    }
}

/// The domain `from_min_max` builds, with the identity fallback for
/// the one unrepresentable corner.
pub open spec fn min_max_scale(mn: int, mx: int) -> Scale {
    if mn < 0 && mx > 0 {
        Scale { a: mn as i64, b: 0, c: mx as i64 }
    } else if mn < 0 && mx <= 0 {
        if mn > -0x8000_0000_0000_0000 {
            Scale { a: mn as i64, b: 0, c: (-mn) as i64 }
        } else {
            Scale { a: -1000000i64, b: 0i64, c: 1000000i64 }
        }
    } else if mx > 0 {
        Scale { a: (-mx) as i64, b: 0, c: mx as i64 }
    } else {
        Scale { a: -1000000i64, b: 0i64, c: 1000000i64 }
    }
}

/// The scale one configured entry materializes to, given the bounds.
pub open spec fn materialized_scale(
    pattern: Seq<char>,
    t: ScaleType,
    bounds: Seq<(Seq<char>, (int, int))>,
) -> Scale {
    match t {
        ScaleType::Static(s) => s,
        ScaleType::Auto => if assoc_has(bounds, pattern) {
            let p = bounds[assoc_index(bounds, pattern)].1;
            min_max_scale(p.0, p.1)
        } else {
            Scale { a: -1000000i64, b: 0i64, c: 1000000i64 }
        },
    }
}

impl ScalesConfig {
    /// Bounds of every autoscale group over the given series.
    #[verifier::loop_isolation(false)]
    fn bounds(&self, series: &Vec<Series>) -> (r: Vec<(String, (i64, i64))>)
        ensures
            r@.map_values(|p: (String, (i64, i64))| (p.0@, (p.1.0 as int, p.1.1 as int)))
                == bounds_spec(
                cfg_models(self.entries@),
                series@.map_values(|s: Series| s@),
            ),
    {
        let ghost cfgs = cfg_models(self.entries@);
        let ghost sers = series@.map_values(|s: Series| s@);
        let mut r: Vec<(String, (i64, i64))> = Vec::new();
        let ghost rm = |p: (String, (i64, i64))| (p.0@, (p.1.0 as int, p.1.1 as int));
        let mut i: usize = 0;
        while i < series.len()
            invariant
                i <= series@.len(),
                r@.map_values(|p: (String, (i64, i64))| (p.0@, (p.1.0 as int, p.1.1 as int)))
                    =~= bounds_spec(cfgs, sers.take(i as int)),
            decreases series@.len() - i,
        {
            proof {
                assert(sers.take(i + 1 as int).drop_last() =~= sers.take(i as int));
                assert(sers.take(i + 1 as int).last() == sers[i as int]);
                assert(sers[i as int] == series@[i as int]@);
            }
            match self.find_auto(series[i].title.as_str()) {
                Some(j) => {
                    match min_max(&series[i].values) {
                        Some((mn, mx)) => {
                            let key = self.entries[j].pattern.clone();
                            // widen or append this group's bounds
                            let mut k: usize = 0;
                            let mut found: bool = false;
                            let ghost rv = r@.map_values(
                                |p: (String, (i64, i64))| (p.0@, (p.1.0 as int, p.1.1 as int)),
                            );
                            proof {
                                lemma_assoc_index(rv, key@);
                                assert(cfgs[j as int].0 == key@);
                            }
                            while k < r.len() && !found
                                invariant
                                    k <= r@.len() + 1,
                                    !found ==> k <= r@.len(),
                                    !found ==> rv == r@.map_values(
                                        |p: (String, (i64, i64))| (
                                            p.0@,
                                            (p.1.0 as int, p.1.1 as int),
                                        ),
                                    ),
                                    !found ==> forall|q: int|
                                        0 <= q < k ==> (#[trigger] rv[q]).0 != key@,
                                    found ==> r@.map_values(
                                        |p: (String, (i64, i64))| (
                                            p.0@,
                                            (p.1.0 as int, p.1.1 as int),
                                        ),
                                    ) == bounds_upd(rv, key@, mn as int, mx as int),
                                decreases r@.len() - k + (if found { 0int } else { 1int }),
                            {
                                if str_eq(r[k].0.as_str(), key.as_str()) {
                                    proof {
                                        assert(rv[k as int].0 == key@);
                                        lemma_assoc_index(rv, key@);
                                        assert(assoc_index(rv, key@) == k);
                                    }
                                    let cur = r[k].1;
                                    let nmn = if mn < cur.0 {
                                        mn
                                    } else {
                                        cur.0
                                    };
                                    let nmx = if mx > cur.1 {
                                        mx
                                    } else {
                                        cur.1
                                    };
                                    let entry = (r[k].0.clone(), (nmn, nmx));
                                    r.set(k, entry);
                                    found = true;
                                    proof {
                                        assert(r@.map_values(
                                            |p: (String, (i64, i64))| (
                                                p.0@,
                                                (p.1.0 as int, p.1.1 as int),
                                            ),
                                        ) =~= bounds_upd(
                                            rv,
                                            key@,
                                            mn as int,
                                            mx as int,
                                        ));
                                    }
                                } else {
                                    k += 1;
                                }
                            }
                            if !found {
                                proof {
                                    lemma_assoc_index(rv, key@);
                                    assert(!assoc_has(rv, key@));
                                }
                                r.push((key, (mn, mx)));
                                proof {
                                    assert(r@.map_values(
                                        |p: (String, (i64, i64))| (
                                            p.0@,
                                            (p.1.0 as int, p.1.1 as int),
                                        ),
                                    ) =~= bounds_upd(rv, key@, mn as int, mx as int));
                                }
                            }
                        },
                        None => {},
                    }
                },
                None => {},
            }
            i += 1;
        }
        proof {
            assert(sers.take(sers.len() as int) =~= sers);
        }
        r
    }

    /// First autoscale entry matching the title, if the first match
    /// is an autoscale at all.
    #[verifier::loop_isolation(false)]
    fn find_auto(&self, title: &str) -> (r: Option<usize>)
        ensures
            match r {
                Some(j) => j < self.entries@.len() && find_auto_spec(
                    cfg_models(self.entries@),
                    title@,
                ) == Some(j as int),
                None => find_auto_spec(cfg_models(self.entries@), title@) is None,
            },
    {
        let ghost ms = cfg_models(self.entries@);
        proof {
            assert(ms.skip(0) =~= ms);
        }
        let mut i: usize = 0;
        while i < self.entries.len()
            invariant
                i <= self.entries@.len(),
                ({
                    let whole = find_auto_spec(ms, title@);
                    let rest = find_auto_spec(ms.skip(i as int), title@);
                    match rest {
                        Some(j) => whole == Some(j + i),
                        None => whole is None,
                    }
                }),
            decreases self.entries@.len() - i,
        {
            proof {
                assert(ms.skip(i as int).drop_first() =~= ms.skip(i + 1 as int));
                assert(ms.skip(i as int)[0] == ms[i as int]);
            }
            if str_contains(title, self.entries[i].pattern.as_str()) {
                match self.entries[i].config {
                    ScaleType::Auto => {
                        return Some(i);
                    },
                    ScaleType::Static(_) => {
                        return None;
                    },
                }
            }
            i += 1;
        }
        proof {
            assert(find_auto_spec(ms.skip(ms.len() as int), title@) is None);
        }
        None
    }

    /// Resolves every entry to a concrete scale: static entries keep
    /// theirs, autoscale groups get one shared scale from the union
    /// of the bounds of the series they match.
    #[verifier::loop_isolation(false)]
    pub fn materialize(&self, series: &Vec<Series>) -> (r: Scales)
        ensures
            scales_model(r.scales@) == Seq::new(
                cfg_models(self.entries@).len(),
                |i: int|
                    (
                        cfg_models(self.entries@)[i].0,
                        materialized_scale(
                            cfg_models(self.entries@)[i].0,
                            cfg_models(self.entries@)[i].1,
                            bounds_spec(
                                cfg_models(self.entries@),
                                series@.map_values(|s: Series| s@),
                            ),
                        ),
                    ),
            ),
    {
        let ghost cfgs = cfg_models(self.entries@);
        let ghost bm = bounds_spec(cfgs, series@.map_values(|s: Series| s@));
        let ghost target = Seq::new(
            cfgs.len(),
            |i: int| (cfgs[i].0, materialized_scale(cfgs[i].0, cfgs[i].1, bm)),
        );
        let bounds = self.bounds(series);
        let ghost bv = bounds@.map_values(
            |p: (String, (i64, i64))| (p.0@, (p.1.0 as int, p.1.1 as int)),
        );
        proof {
            lemma_bounds_ordered(cfgs, series@.map_values(|s: Series| s@));
        }
        let mut out: Vec<(String, Scale)> = Vec::new();
        let mut i: usize = 0;
        while i < self.entries.len()
            invariant
                i <= self.entries@.len(),
                bv == bounds@.map_values(
                    |p: (String, (i64, i64))| (p.0@, (p.1.0 as int, p.1.1 as int)),
                ),
                bv == bm,
                scales_model(out@) =~= target.take(i as int),
            decreases self.entries@.len() - i,
        {
            proof {
                assert(cfgs[i as int] == (self.entries@[i as int].pattern@, self.entries@[
                    i as int
                ].config));
            }
            let scale: Scale = match self.entries[i].config {
                ScaleType::Static(s) => s,
                ScaleType::Auto => {
                    // the shared bounds of this group, if any series fed it
                    let key = &self.entries[i].pattern;
                    proof {
                        lemma_assoc_index(bv, key@);
                    }
                    let mut k: usize = 0;
                    let mut res: Scale = Scale { a: -1000000i64, b: 0i64, c: 1000000i64 };
                    let mut found: bool = false;
                    while k < bounds.len() && !found
                        invariant
                            k <= bounds@.len(),
                            bv == bounds@.map_values(
                                |p: (String, (i64, i64))| (p.0@, (p.1.0 as int, p.1.1 as int)),
                            ),
                            forall|q: int| 0 <= q < k ==> (#[trigger] bv[q]).0 != key@,
                            !found ==> res == (Scale { a: -1000000i64, b: 0i64, c: 1000000i64 }),
                            found ==> assoc_has(bv, key@) && res == min_max_scale(
                                bv[assoc_index(bv, key@)].1.0,
                                bv[assoc_index(bv, key@)].1.1,
                            ),
                        decreases bounds@.len() - k + (if found { 0int } else { 1int }),
                    {
                        if str_eq(bounds[k].0.as_str(), key.as_str()) {
                            proof {
                                assert(bv[k as int].0 == key@);
                                lemma_assoc_index(bv, key@);
                                assert(assoc_index(bv, key@) == k);
                            }
                            let (mn, mx) = bounds[k].1;
                            match Scale::from_min_max(mn, mx) {
                                Ok(s) => {
                                    res = s;
                                },
                                Err(_) => {
                                    res = Scale { a: -1000000i64, b: 0i64, c: 1000000i64 };
                                },
                            }
                            found = true;
                            proof {
                                assert(bv[k as int].1.0 <= bv[k as int].1.1);
                                assert(res == min_max_scale(bv[k as int].1.0, bv[k as int].1.1));
                            }
                        } else {
                            k += 1;
                        }
                    }
                    proof {
                        if !found {
                            lemma_assoc_index(bv, key@);
                            assert(!assoc_has(bv, key@));
                        }
                    }
                    res
                },
            };
            let pat = self.entries[i].pattern.clone();
            out.push((pat, scale));
            proof {
                assert(target.take(i + 1 as int) =~= target.take(i as int).push(
                    target[i as int],
                ));
                assert(scales_model(out@) =~= target.take(i + 1 as int));
            }
            i += 1;
        }
        proof {
            assert(target.take(target.len() as int) =~= target);
        }
        Scales::with_scales(out)
    }
}

/// Every recorded group bound keeps its minimum at or below its
/// maximum.
proof fn lemma_bounds_ordered(cfgs: Seq<(Seq<char>, ScaleType)>, sers: Seq<SeriesModel>)
    ensures
        forall|i: int|
            0 <= i < bounds_spec(cfgs, sers).len() ==> (#[trigger] bounds_spec(cfgs, sers)[i]).1.0
                <= bounds_spec(cfgs, sers)[i].1.1,
    decreases sers.len(),
{
    if sers.len() > 0 {
        lemma_bounds_ordered(cfgs, sers.drop_last());
        let rest = bounds_spec(cfgs, sers.drop_last());
        let s = sers.last();
        match find_auto_spec(cfgs, s.title) {
            Some(i) => {
                if has_present(s.values) {
                    crate::sample::lemma_present_min_max(s.values);
                    lemma_assoc_index(rest, cfgs[i].0);
                }
            },
            None => {},
        }
    }
}

} // verus!
