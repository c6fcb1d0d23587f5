//! The tick scheduler and output dispatcher: each tick resolves every
//! strip's bindings, runs the matching effect updates, and dispatches the
//! strip's colors over its bound connection, unbinding a connection whose
//! transport is gone.

use crate::color::{serialize_colors, serialized, Color};
use crate::connections::{Connection, TcpConnection, UsbConnection};
use crate::effects::{
    next_rng, rendered, tags_match, update_moody, update_raindrop, updated_riples, Effect, Riple,
    Settings,
};
use crate::ledstrip::LedStrip;
use crate::registry::Registry;
use vstd::prelude::*;

verus! {

/// A construction-time invariant found violated at runtime.  The
/// scheduler reports these instead of recovering; the process around it
/// must treat them as fatal and abort.
#[derive(Clone, Copy, PartialEq, Eq, Structural, Debug)]
pub enum FatalError {
    /// A binding's interval is reversed or sticks out of its strip's
    /// color buffer.
    IntervalOutOfBounds { effect_id: i32 },
    /// A binding names an effect the registry does not hold.
    EffectNotFound { effect_id: i32 },
    /// An effect has no settings binding.
    SettingNotFound { effect_id: i32 },
    /// The settings resolved for an effect carry a different variant tag
    /// (or the bound settings identifier names no settings entity).
    EffectSettingsMismatch { effect_id: i32 },
    /// A strip is bound to a transport variant with no implemented send
    /// path; rejecting it here, deliberately, rather than dropping
    /// frames in silence.
    UnimplementedTransport { connection_id: i32 },
}

/// Why a dispatch did nothing for a strip.
#[derive(Clone, Copy, PartialEq, Eq, Structural, Debug)]
pub enum DispatchError {
    /// The strip's bound connection identifier is not in the registry:
    /// logged and skipped, never fatal.
    UnknownConnection { connection_id: i32 },
    /// The connection is a transport variant with no implemented send
    /// path: fatal.
    UnimplementedTransport { connection_id: i32 },
}

/// Whether two effects are the same variant.
pub open spec fn same_kind(a: Effect, b: Effect) -> bool {
    match (a, b) {
        (Effect::Moody(_), Effect::Moody(_)) => true,
        (Effect::Raindrop(_), Effect::Raindrop(_)) => true,
        (Effect::Script(_), Effect::Script(_)) => true,
        _ => false,
    }
}

/// Whether a settings entity matches an effect's tag depends only on the
/// effect's variant.
pub proof fn lemma_tags_by_kind(a: Effect, b: Effect, s: Settings)
    requires
        same_kind(a, b),
    ensures
        tags_match(a, s) == tags_match(b, s),
{
}

/// With unique keys, an identifier maps to at most one value.
pub proof fn lemma_unique_value<T>(r: Registry<T>, k: i32, v1: T, v2: T)
    requires
        r.wf(),
        r.has_pair(k, v1),
        r.has_pair(k, v2),
    ensures
        v1 == v2,
{
    let i = choose|i: int| 0 <= i < r.entries@.len() && #[trigger] r.entries@[i] == (k, v1);
    let j = choose|j: int| 0 <= j < r.entries@.len() && #[trigger] r.entries@[j] == (k, v2);
    if i < j {
        assert(r.entries@[i].0 != r.entries@[j].0);
    } else if j < i {
        assert(r.entries@[j].0 != r.entries@[i].0);
    }
}

/// Whether one effect binding can be applied without hitting a fatal
/// condition: its interval fits the buffer, its effect exists, the
/// effect has a settings binding to an existing settings entity, and
/// every resolution of that chain matches tags.
#[verifier::opaque]
pub open spec fn binding_sound(
    b: (i32, (usize, usize)),
    colors_len: int,
    effects: Registry<Effect>,
    settings: Registry<Settings>,
    links: Registry<i32>,
) -> bool {
    &&& b.1.0 <= b.1.1
    &&& b.1.1 < colors_len
    &&& effects.contains_key(b.0)
    &&& exists|sid: i32| #[trigger] links.has_pair(b.0, sid) && settings.contains_key(sid)
    &&& forall|e: Effect, sid: i32, s: Settings|
        #[trigger] effects.has_pair(b.0, e) && #[trigger] links.has_pair(b.0, sid)
            && #[trigger] settings.has_pair(sid, s) ==> tags_match(e, s)
}

/// Key-for-key correspondence of two effect registries: the same
/// identifiers, bound to effects of the same variant.
pub open spec fn kinds_preserved(a: Registry<Effect>, b: Registry<Effect>) -> bool {
    &&& forall|k: i32| a.contains_key(k) <==> b.contains_key(k)
    &&& forall|k: i32, e: Effect|
        #[trigger] b.has_pair(k, e) ==> exists|e0: Effect| #[trigger] a.has_pair(k, e0)
            && same_kind(e0, e)
}

/// A binding sound against one effect registry is sound against any
/// registry with the same keys and variants.
pub proof fn lemma_binding_sound_transfer(
    b: (i32, (usize, usize)),
    colors_len: int,
    a: Registry<Effect>,
    c: Registry<Effect>,
    settings: Registry<Settings>,
    links: Registry<i32>,
)
    requires
        a.wf(),
        kinds_preserved(a, c),
        binding_sound(b, colors_len, c, settings, links),
    ensures
        binding_sound(b, colors_len, a, settings, links),
{
    reveal(binding_sound);
    assert forall|e: Effect, sid: i32, s: Settings|
        #[trigger] a.has_pair(b.0, e) && #[trigger] links.has_pair(b.0, sid)
            && #[trigger] settings.has_pair(sid, s) implies tags_match(e, s) by {
        assert(a.contains_key(b.0));
        assert(c.contains_key(b.0));
        let i = choose|i: int| 0 <= i < c.entries@.len() && (#[trigger] c.entries@[i]).0 == b.0;
        let ec = c.entries@[i].1;
        assert(c.entries@[i] == (b.0, ec));
        assert(c.has_pair(b.0, ec));
        assert(tags_match(ec, s));
        let e0 = choose|e0: Effect| #[trigger] a.has_pair(b.0, e0) && same_kind(e0, ec);
        lemma_unique_value(a, b.0, e, e0);
        lemma_tags_by_kind(e0, ec, s);
    }
}

/// Two kind-preservation steps compose.
pub proof fn lemma_kinds_preserved_trans(
    a: Registry<Effect>,
    b: Registry<Effect>,
    c: Registry<Effect>,
)
    requires
        kinds_preserved(a, b),
        kinds_preserved(b, c),
    ensures
        kinds_preserved(a, c),
{
    assert forall|k: i32, e: Effect| #[trigger] c.has_pair(k, e) implies exists|e0: Effect|
        #[trigger] a.has_pair(k, e0) && same_kind(e0, e) by {
        let e1 = choose|e1: Effect| #[trigger] b.has_pair(k, e1) && same_kind(e1, e);
        let e0 = choose|e0: Effect| #[trigger] a.has_pair(k, e0) && same_kind(e0, e1);
        assert(a.has_pair(k, e0) && same_kind(e0, e));
    }
}

/// The per-effect mutable state a tick threads from binding to binding:
/// the ripples and spawn generator of a raindrop effect (the stateless
/// variants carry a fixed placeholder).
pub open spec fn state_view(e: Effect) -> (Seq<Riple>, u64) {
    match e {
        Effect::Raindrop(rd) => (rd.state.riples@, rd.state.rng),
        _ => (Seq::empty(), 0u64),
    }
}

/// Every registered effect's state view, by identifier.
pub open spec fn states_of(effects: Registry<Effect>) -> Map<i32, (Seq<Riple>, u64)> {
    Map::new(
        |k: i32| effects.spec_get(k) is Some,
        |k: i32| state_view(effects.spec_get(k)->Some_0),
    )
}

/// The inclusive interval `[lo, hi]` painted one color, every other LED
/// kept.
pub open spec fn overwritten(c: Seq<Color>, lo: int, hi: int, col: Color) -> Seq<Color> {
    Seq::new(
        c.len(),
        |m: int|
            if lo <= m <= hi {
                col
            } else {
                c[m]
            },
    )
}

/// The inclusive interval `[lo, hi]` rendered from ripples over the
/// fading previous colors, every other LED kept.
pub open spec fn rendered_interval(c: Seq<Color>, lo: int, hi: int, rips: Seq<Riple>) -> Seq<
    Color,
> {
    Seq::new(
        c.len(),
        |m: int|
            if lo <= m <= hi {
                rendered(c, rips, lo, m)
            } else {
                c[m]
            },
    )
}

/// What one resolved binding does to a strip's colors and to the
/// threaded effect states.  The effect's variant comes from the
/// registry as of the start of the pass (a pass never changes
/// variants); a raindrop's mutable state comes from the threaded map.
/// A moody binding paints its interval; a raindrop binding advances its
/// state and renders its interval; a script-driven binding leaves the
/// colors to its external host.
pub open spec fn binding_step(
    colors: Seq<Color>,
    b: (i32, (usize, usize)),
    effects0: Registry<Effect>,
    settings: Registry<Settings>,
    links: Registry<i32>,
    states: Map<i32, (Seq<Riple>, u64)>,
) -> (Seq<Color>, Map<i32, (Seq<Riple>, u64)>) {
    let lo = b.1.0 as int;
    let hi = b.1.1 as int;
    let e = effects0.spec_get(b.0)->Some_0;
    let s = settings.spec_get(links.spec_get(b.0)->Some_0)->Some_0;
    match (e, s) {
        (Effect::Moody(_), Settings::Moody(ms)) => (overwritten(colors, lo, hi, ms.color), states),
        (Effect::Raindrop(_), Settings::Raindrop(rs)) => {
            let st = states[b.0];
            let rng1 = next_rng(st.1);
            let rips1 = updated_riples(st.0, rs.rain_speed as int, hi + 1 - lo, rng1, rs.drop_rate_pm);
            (rendered_interval(colors, lo, hi, rips1), states.insert(b.0, (rips1, rng1)))
        },
        _ => (colors, states),
    }
}

/// The insertion-order fold of a strip's bindings over its color buffer
/// and the threaded effect states: what one pass of the scheduler does
/// to the strip when every binding resolves.
pub open spec fn run_bindings(
    colors: Seq<Color>,
    bs: Seq<(i32, (usize, usize))>,
    effects0: Registry<Effect>,
    settings: Registry<Settings>,
    links: Registry<i32>,
    states: Map<i32, (Seq<Riple>, u64)>,
) -> (Seq<Color>, Map<i32, (Seq<Riple>, u64)>)
    decreases bs.len(),
{
    if bs.len() == 0 {
        (colors, states)
    } else {
        let prev = run_bindings(colors, bs.drop_last(), effects0, settings, links, states);
        binding_step(prev.0, bs.last(), effects0, settings, links, prev.1)
    }
}

/// The strips' colors after one tick's effect pass, with the effect
/// states threaded across the strips in order.
#[verifier::opaque]
pub open spec fn run_strips(
    strips: Seq<LedStrip>,
    effects0: Registry<Effect>,
    settings: Registry<Settings>,
    links: Registry<i32>,
    states: Map<i32, (Seq<Riple>, u64)>,
) -> (Seq<Seq<Color>>, Map<i32, (Seq<Riple>, u64)>)
    decreases strips.len(),
{
    if strips.len() == 0 {
        (Seq::empty(), states)
    } else {
        let prev = run_strips(strips.drop_last(), effects0, settings, links, states);
        let last = strips.last();
        let res = run_bindings(last.colors@, last.effects@, effects0, settings, links, prev.1);
        (prev.0.push(res.0), res.1)
    }
}

/// After a key's value is replaced, every effect's state view is as
/// before except at that key, where it is the new value's.
proof fn lemma_states_after_insert(a: Registry<Effect>, b: Registry<Effect>, k: i32, v: Effect)
    requires
        a.wf(),
        b.wf(),
        a.contains_key(k),
        b.contains_key(k),
        b.has_pair(k, v),
        forall|v2: Effect| b.has_pair(k, v2) ==> v2 == v,
        forall|k2: i32, v2: Effect| k2 != k ==> (b.has_pair(k2, v2) <==> a.has_pair(k2, v2)),
        forall|k2: i32| k2 != k ==> (b.contains_key(k2) <==> a.contains_key(k2)),
    ensures
        states_of(b) == states_of(a).insert(k, state_view(v)),
{
    assert forall|k2: i32| true implies (b.spec_get(k2) is Some) == (a.spec_get(k2) is Some
        || k2 == k) by {
        crate::registry::lemma_spec_get_agrees(a, k2);
        crate::registry::lemma_spec_get_agrees(b, k2);
    }
    assert forall|k2: i32| b.spec_get(k2) is Some implies state_view(b.spec_get(k2)->Some_0) == (
    if k2 == k {
        state_view(v)
    } else {
        state_view(a.spec_get(k2)->Some_0)
    }) by {
        crate::registry::lemma_spec_get_agrees(a, k2);
        crate::registry::lemma_spec_get_agrees(b, k2);
        let v2 = b.spec_get(k2)->Some_0;
        assert(b.has_pair(k2, v2));
        if k2 == k {
            assert(v2 == v);
        } else {
            assert(a.has_pair(k2, v2));
            assert(a.spec_get(k2) == Some(v2));
        }
    }
    crate::registry::lemma_spec_get_agrees(a, k);
    assert(states_of(b) =~= states_of(a).insert(k, state_view(v)));
}

/// The fold cares only about the variants of the start-of-pass
/// registry, so any registry with the same keys and variants gives the
/// same fold.
proof fn lemma_run_bindings_same_kinds(
    colors: Seq<Color>,
    bs: Seq<(i32, (usize, usize))>,
    a: Registry<Effect>,
    c: Registry<Effect>,
    settings: Registry<Settings>,
    links: Registry<i32>,
    states: Map<i32, (Seq<Riple>, u64)>,
)
    requires
        a.wf(),
        c.wf(),
        kinds_preserved(a, c),
    ensures
        run_bindings(colors, bs, a, settings, links, states) == run_bindings(
            colors,
            bs,
            c,
            settings,
            links,
            states,
        ),
    decreases bs.len(),
{
    if bs.len() > 0 {
        lemma_run_bindings_same_kinds(colors, bs.drop_last(), a, c, settings, links, states);
        let b = bs.last();
        crate::registry::lemma_spec_get_agrees(a, b.0);
        crate::registry::lemma_spec_get_agrees(c, b.0);
        if a.spec_get(b.0) is Some {
            let ea = a.spec_get(b.0)->Some_0;
            let ec = c.spec_get(b.0)->Some_0;
            assert(a.has_pair(b.0, ea));
            assert(a.contains_key(b.0));
            assert(c.contains_key(b.0));
            assert(c.has_pair(b.0, ec));
            let e0 = choose|e0: Effect| #[trigger] a.has_pair(b.0, e0) && same_kind(e0, ec);
            lemma_unique_value(a, b.0, ea, e0);
            assert(same_kind(ea, ec));
        } else {
            assert(!a.contains_key(b.0));
            assert(!c.contains_key(b.0));
            assert(c.spec_get(b.0) is None);
        }
    }
}

/// Applies one resolved binding: runs the matching effect variant's
/// update on the inclusive interval `[lo, hi]`.  A script-driven binding
/// is left to its external host (see `apply_script_output`), so its
/// interval keeps its colors and the result is `Ok(false)`.  A variant
/// tag mismatch changes nothing and is fatal.
pub fn apply_binding(
    colors: &mut Vec<Color>,
    lo: usize,
    hi: usize,
    effect: &mut Effect,
    setting: &Settings,
    effect_id: i32,
) -> (r: Result<bool, FatalError>)
    requires
        lo <= hi < old(colors)@.len(),
    ensures
        final(colors)@.len() == old(colors)@.len(),
        same_kind(*final(effect), *old(effect)),
        same_kind(*old(effect), *final(effect)),
        final(effect).spec_id() == old(effect).spec_id(),
        r is Ok <==> tags_match(*old(effect), *setting),
        r is Err ==> final(colors)@ == old(colors)@ && *final(effect) == *old(effect) && r == Err::<
            bool,
            FatalError,
        >(FatalError::EffectSettingsMismatch { effect_id }),
        match (*old(effect), *setting) {
            (Effect::Moody(_), Settings::Moody(ms)) => {
                &&& *final(effect) == *old(effect)
                &&& r == Ok::<bool, FatalError>(true)
                &&& forall|m: int| lo <= m <= hi ==> final(colors)@[m] == ms.color
                &&& forall|m: int|
                    0 <= m < old(colors)@.len() && !(lo <= m <= hi)
                        ==> final(colors)@[m] == old(colors)@[m]
            },
            (Effect::Raindrop(rd), Settings::Raindrop(rs)) => {
                &&& r == Ok::<bool, FatalError>(true)
                &&& match *final(effect) {
                    Effect::Raindrop(rd2) => {
                        &&& rd2.id == rd.id
                        &&& rd2.state.rng == next_rng(rd.state.rng)
                        &&& rd2.state.riples@ == updated_riples(
                            rd.state.riples@,
                            rs.rain_speed as int,
                            hi - lo + 1,
                            next_rng(rd.state.rng),
                            rs.drop_rate_pm,
                        )
                        &&& forall|m: int|
                            lo <= m <= hi ==> final(colors)@[m] == rendered(
                                old(colors)@,
                                rd2.state.riples@,
                                lo as int,
                                m,
                            )
                        &&& forall|m: int|
                            0 <= m < old(colors)@.len() && !(lo <= m <= hi)
                                ==> final(colors)@[m] == old(colors)@[m]
                    },
                    _ => false,
                }
            },
            (Effect::Script(_), Settings::Script(_)) => {
                &&& r == Ok::<bool, FatalError>(false)
                &&& final(colors)@ == old(colors)@
                &&& *final(effect) == *old(effect)
            },
            _ => r is Err,
        },
{
    match effect {
        Effect::Moody(_m) => {
            match setting {
                Settings::Moody(ms) => {
                    update_moody(colors, lo, hi, ms);
                    Ok(true)
                },
                _ => Err(FatalError::EffectSettingsMismatch { effect_id }),
            }
        },
        Effect::Raindrop(rd) => {
            match setting {
                Settings::Raindrop(rs) => {
                    update_raindrop(colors, lo, hi, rs, &mut rd.state);
                    Ok(true)
                },
                _ => Err(FatalError::EffectSettingsMismatch { effect_id }),
            }
        },
        Effect::Script(_s) => {
            match setting {
                Settings::Script(_ss) => Ok(false),
                _ => Err(FatalError::EffectSettingsMismatch { effect_id }),
            }
        },
    }
}

/// Runs every binding of one strip, in insertion order.  Returns the
/// first fatal condition met, with the strip's buffer as the bindings
/// before it left it; on success every binding was resolved and applied
/// (script-driven intervals are left to their host).
#[verifier::rlimit(80)]
pub fn update_strip_effects(
    strip: &mut LedStrip,
    effects: &mut Registry<Effect>,
    settings: &Registry<Settings>,
    effect_settings: &Registry<i32>,
) -> (r: Result<(), FatalError>)
    requires
        old(effects).wf(),
        settings.wf(),
        effect_settings.wf(),
    ensures
        final(effects).wf(),
        kinds_preserved(*old(effects), *final(effects)),
        kinds_preserved(*final(effects), *old(effects)),
        final(strip).colors@.len() == old(strip).colors@.len(),
        final(strip).effects@ == old(strip).effects@,
        final(strip).connection_id == old(strip).connection_id,
        r is Ok ==> forall|bi: int|
            0 <= bi < old(strip).effects@.len() ==> binding_sound(
                #[trigger] old(strip).effects@[bi],
                old(strip).colors@.len() as int,
                *old(effects),
                *settings,
                *effect_settings,
            ),
        r is Err ==> exists|bi: int|
            {
                &&& 0 <= bi < old(strip).effects@.len()
                &&& !binding_sound(
                    #[trigger] old(strip).effects@[bi],
                    old(strip).colors@.len() as int,
                    *old(effects),
                    *settings,
                    *effect_settings,
                )
                &&& final(strip).colors@ == run_bindings(
                    old(strip).colors@,
                    old(strip).effects@.take(bi),
                    *old(effects),
                    *settings,
                    *effect_settings,
                    states_of(*old(effects)),
                ).0
            },
        !(r matches Err(FatalError::UnimplementedTransport { .. })),
        r is Ok ==> final(strip).colors@ == run_bindings(
            old(strip).colors@,
            old(strip).effects@,
            *old(effects),
            *settings,
            *effect_settings,
            states_of(*old(effects)),
        ).0,
        r is Ok ==> states_of(*final(effects)) == run_bindings(
            old(strip).colors@,
            old(strip).effects@,
            *old(effects),
            *settings,
            *effect_settings,
            states_of(*old(effects)),
        ).1,
{
    proof {
        assert(old(strip).effects@.take(0) =~= Seq::<(i32, (usize, usize))>::empty());
    }
    let n_bindings: usize = strip.effects.len();
    let mut bi: usize = 0;
    while bi < n_bindings
        invariant
            bi <= n_bindings,
            n_bindings == strip.effects@.len(),
            old(effects).wf(),
            effects.wf(),
            settings.wf(),
            effect_settings.wf(),
            kinds_preserved(*old(effects), *effects),
            kinds_preserved(*effects, *old(effects)),
            strip.effects@ == old(strip).effects@,
            strip.colors@.len() == old(strip).colors@.len(),
            strip.connection_id == old(strip).connection_id,
            forall|t: int|
                0 <= t < bi ==> binding_sound(
                    #[trigger] old(strip).effects@[t],
                    old(strip).colors@.len() as int,
                    *old(effects),
                    *settings,
                    *effect_settings,
                ),
            strip.colors@ == run_bindings(
                old(strip).colors@,
                old(strip).effects@.take(bi as int),
                *old(effects),
                *settings,
                *effect_settings,
                states_of(*old(effects)),
            ).0,
            states_of(*effects) == run_bindings(
                old(strip).colors@,
                old(strip).effects@.take(bi as int),
                *old(effects),
                *settings,
                *effect_settings,
                states_of(*old(effects)),
            ).1,
        decreases n_bindings - bi,
    {
        let ghost pre_effects = *effects;
        let ghost fold_pre = run_bindings(
            old(strip).colors@,
            old(strip).effects@.take(bi as int),
            *old(effects),
            *settings,
            *effect_settings,
            states_of(*old(effects)),
        );
        let ghost colors_pre = strip.colors@;
        let (effect_id, interval) = strip.effects[bi];
        let lo: usize = interval.0;
        let hi: usize = interval.1;
        proof {
            assert(strip.effects@[bi as int] == (effect_id, (lo, hi)));
        }
        if !(lo <= hi && hi < strip.colors.len()) {
            proof {
                reveal(binding_sound);
                assert(!binding_sound(
                    old(strip).effects@[bi as int],
                    old(strip).colors@.len() as int,
                    *old(effects),
                    *settings,
                    *effect_settings,
                ));
            }
            return Err(FatalError::IntervalOutOfBounds { effect_id });
        }
        let taken = effects.take(effect_id);
        match taken {
            None => {
                proof {
                    reveal(binding_sound);
                    assert(!pre_effects.contains_key(effect_id));
                    assert(!old(effects).contains_key(effect_id));
                    assert(!binding_sound(
                        old(strip).effects@[bi as int],
                        old(strip).colors@.len() as int,
                        *old(effects),
                        *settings,
                        *effect_settings,
                    ));
                }
                return Err(FatalError::EffectNotFound { effect_id });
            },
            Some(mut eff) => {
                let ghost eff0 = eff;
                proof {
                    assert(pre_effects.has_pair(effect_id, eff0));
                    assert(pre_effects.contains_key(effect_id));
                }
                let sid: i32 = match effect_settings.get(effect_id) {
                    Some(s) => *s,
                    None => {
                        effects.insert(effect_id, eff);
                        proof {
                            lemma_restore(pre_effects, *effects, effect_id, eff0);
                            lemma_kinds_preserved_trans(*old(effects), pre_effects, *effects);
                            lemma_kinds_preserved_trans(*effects, pre_effects, *old(effects));
                            reveal(binding_sound);
                            assert(!binding_sound(
                                old(strip).effects@[bi as int],
                                old(strip).colors@.len() as int,
                                *old(effects),
                                *settings,
                                *effect_settings,
                            ));
                        }
                        return Err(FatalError::SettingNotFound { effect_id });
                    },
                };
                match settings.get(sid) {
                    None => {
                        effects.insert(effect_id, eff);
                        proof {
                            lemma_restore(pre_effects, *effects, effect_id, eff0);
                            lemma_kinds_preserved_trans(*old(effects), pre_effects, *effects);
                            lemma_kinds_preserved_trans(*effects, pre_effects, *old(effects));
                            reveal(binding_sound);
                            assert(!binding_sound(
                                old(strip).effects@[bi as int],
                                old(strip).colors@.len() as int,
                                *old(effects),
                                *settings,
                                *effect_settings,
                            )) by {
                                if exists|sid2: i32|
                                    #[trigger] effect_settings.has_pair(effect_id, sid2)
                                        && settings.contains_key(sid2) {
                                    let sid2 = choose|sid2: i32|
                                        #[trigger] effect_settings.has_pair(effect_id, sid2)
                                            && settings.contains_key(sid2);
                                    lemma_unique_value(*effect_settings, effect_id, sid, sid2);
                                }
                            }
                        }
                        return Err(FatalError::EffectSettingsMismatch { effect_id });
                    },
                    Some(setting) => {
                        let applied = apply_binding(
                            &mut strip.colors,
                            lo,
                            hi,
                            &mut eff,
                            setting,
                            effect_id,
                        );
                        let ghost eff_now = eff;
                        let failed = applied.is_err();
                        effects.insert(effect_id, eff);
                        proof {
                            assert(same_kind(eff0, eff_now));
                            lemma_restore_kind(pre_effects, *effects, effect_id, eff_now);
                            lemma_kinds_preserved_trans(*old(effects), pre_effects, *effects);
                            lemma_kinds_preserved_trans(*effects, pre_effects, *old(effects));
                            assert(exists|e0: Effect|
                                #[trigger] old(effects).has_pair(effect_id, e0) && same_kind(
                                    e0,
                                    eff0,
                                ));
                        }
                        let ghost e0 = choose|e0: Effect|
                            #[trigger] old(effects).has_pair(effect_id, e0) && same_kind(e0, eff0);
                        if failed {
                            proof {
                                reveal(binding_sound);
                                lemma_tags_by_kind(e0, eff0, *setting);
                                assert(!tags_match(eff0, *setting));
                                assert(effect_settings.has_pair(effect_id, sid));
                                assert(settings.has_pair(sid, *setting));
                                assert(!binding_sound(
                                    old(strip).effects@[bi as int],
                                    old(strip).colors@.len() as int,
                                    *old(effects),
                                    *settings,
                                    *effect_settings,
                                ));
                            }
                            return Err(FatalError::EffectSettingsMismatch { effect_id });
                        }
                        proof {
                            reveal(binding_sound);
                            assert(tags_match(eff0, *setting));
                            lemma_tags_by_kind(e0, eff0, *setting);
                            assert(binding_sound(
                                old(strip).effects@[bi as int],
                                old(strip).colors@.len() as int,
                                *old(effects),
                                *settings,
                                *effect_settings,
                            )) by {
                                assert(old(effects).contains_key(effect_id));
                                assert(effect_settings.has_pair(effect_id, sid)
                                    && settings.contains_key(sid));
                                assert forall|e2: Effect, sid2: i32, s2: Settings|
                                    #[trigger] old(effects).has_pair(effect_id, e2)
                                        && #[trigger] effect_settings.has_pair(effect_id, sid2)
                                        && #[trigger] settings.has_pair(sid2, s2) implies tags_match(
                                    e2,
                                    s2,
                                ) by {
                                    lemma_unique_value(*effect_settings, effect_id, sid, sid2);
                                    lemma_unique_value(*settings, sid, *setting, s2);
                                    lemma_unique_value(*old(effects), effect_id, e2, e0);
                                }
                            }
                        }
                        proof {
                            assert(old(strip).effects@.take(bi + 1).drop_last()
                                =~= old(strip).effects@.take(bi as int));
                            assert(old(strip).effects@.take(bi + 1).last() == (
                                effect_id,
                                (lo, hi),
                            ));
                            crate::registry::lemma_spec_get_agrees(*old(effects), effect_id);
                            crate::registry::lemma_spec_get_agrees(pre_effects, effect_id);
                            crate::registry::lemma_spec_get_agrees(*effect_settings, effect_id);
                            crate::registry::lemma_spec_get_agrees(*settings, sid);
                            assert(old(effects).spec_get(effect_id) == Some(e0));
                            assert(pre_effects.spec_get(effect_id) == Some(eff0));
                            assert(effect_settings.spec_get(effect_id) == Some(sid));
                            assert(settings.spec_get(sid) == Some(*setting));
                            assert(fold_pre.1 == states_of(pre_effects));
                            assert(fold_pre.1[effect_id] == state_view(eff0));
                            lemma_states_after_insert(pre_effects, *effects, effect_id, eff_now);
                            match (eff0, setting) {
                                (Effect::Moody(_), Settings::Moody(ms)) => {
                                    assert(eff_now == eff0);
                                    assert(strip.colors@ =~= overwritten(
                                        colors_pre,
                                        lo as int,
                                        hi as int,
                                        ms.color,
                                    ));
                                    assert(states_of(pre_effects).insert(
                                        effect_id,
                                        state_view(eff_now),
                                    ) =~= states_of(pre_effects));
                                    match e0 {
                                        Effect::Moody(_) => {},
                                        _ => {
                                            assert(false);
                                        },
                                    }
                                },
                                (Effect::Raindrop(rd), Settings::Raindrop(rs)) => {
                                    match eff_now {
                                        Effect::Raindrop(rd2) => {
                                            assert(rd2.state.rng == next_rng(rd.state.rng));
                                            assert(strip.colors@ =~= rendered_interval(
                                                colors_pre,
                                                lo as int,
                                                hi as int,
                                                rd2.state.riples@,
                                            ));
                                            assert(state_view(eff_now) == (
                                                rd2.state.riples@,
                                                rd2.state.rng,
                                            ));
                                        },
                                        _ => {
                                            assert(false);
                                        },
                                    }
                                    match e0 {
                                        Effect::Raindrop(_) => {},
                                        _ => {
                                            assert(false);
                                        },
                                    }
                                },
                                (Effect::Script(_), Settings::Script(_)) => {
                                    assert(eff_now == eff0);
                                    assert(strip.colors@ == colors_pre);
                                    assert(states_of(pre_effects).insert(
                                        effect_id,
                                        state_view(eff_now),
                                    ) =~= states_of(pre_effects));
                                    match e0 {
                                        Effect::Script(_) => {},
                                        _ => {
                                            assert(false);
                                        },
                                    }
                                },
                                _ => {
                                    assert(false);
                                },
                            }
                            assert(run_bindings(
                                old(strip).colors@,
                                old(strip).effects@.take(bi + 1),
                                *old(effects),
                                *settings,
                                *effect_settings,
                                states_of(*old(effects)),
                            ) == binding_step(
                                fold_pre.0,
                                (effect_id, (lo, hi)),
                                *old(effects),
                                *settings,
                                *effect_settings,
                                fold_pre.1,
                            ));
                        }
                    },
                }
            },
        }
        bi = bi + 1;
    }
    proof {
        assert(old(strip).effects@.take(n_bindings as int) =~= old(strip).effects@);
    }
    Ok(())
}

/// Putting a value back under the key it was taken from restores the
/// registry's keys, and preserves kinds when the value is of the kind
/// that was taken.
proof fn lemma_restore(
    a: Registry<Effect>,
    b: Registry<Effect>,
    k: i32,
    v: Effect,
)
    requires
        a.wf(),
        a.has_pair(k, v),
        b.contains_key(k),
        b.has_pair(k, v),
        forall|v2: Effect| b.has_pair(k, v2) ==> v2 == v,
        forall|k2: i32, v2: Effect| k2 != k ==> (b.has_pair(k2, v2) <==> a.has_pair(k2, v2)),
        forall|k2: i32| k2 != k ==> (b.contains_key(k2) <==> a.contains_key(k2)),
    ensures
        kinds_preserved(a, b),
        kinds_preserved(b, a),
{
    assert forall|k2: i32, e: Effect| #[trigger] b.has_pair(k2, e) implies exists|e0: Effect|
        #[trigger] a.has_pair(k2, e0) && same_kind(e0, e) by {
        if k2 == k {
            assert(e == v);
            assert(a.has_pair(k, v) && same_kind(v, v));
        } else {
            assert(a.has_pair(k2, e) && same_kind(e, e));
        }
    }
    assert forall|k2: i32| a.contains_key(k2) implies b.contains_key(k2) by {
        if k2 != k {
            assert(b.contains_key(k2));
        }
    }
    assert forall|k2: i32, e: Effect| #[trigger] a.has_pair(k2, e) implies exists|e1: Effect|
        #[trigger] b.has_pair(k2, e1) && same_kind(e1, e) by {
        if k2 == k {
            lemma_unique_value(a, k, e, v);
            assert(b.has_pair(k, v) && same_kind(v, e));
        } else {
            assert(b.has_pair(k2, e) && same_kind(e, e));
        }
    }
}

/// As `lemma_restore`, for a value updated in place: same key, same kind.
proof fn lemma_restore_kind(
    a: Registry<Effect>,
    b: Registry<Effect>,
    k: i32,
    v: Effect,
)
    requires
        a.wf(),
        a.contains_key(k),
        exists|v0: Effect| #[trigger] a.has_pair(k, v0) && same_kind(v0, v),
        b.contains_key(k),
        b.has_pair(k, v),
        forall|v2: Effect| b.has_pair(k, v2) ==> v2 == v,
        forall|k2: i32, v2: Effect| k2 != k ==> (b.has_pair(k2, v2) <==> a.has_pair(k2, v2)),
        forall|k2: i32| k2 != k ==> (b.contains_key(k2) <==> a.contains_key(k2)),
    ensures
        kinds_preserved(a, b),
        kinds_preserved(b, a),
{
    assert forall|k2: i32, e: Effect| #[trigger] b.has_pair(k2, e) implies exists|e0: Effect|
        #[trigger] a.has_pair(k2, e0) && same_kind(e0, e) by {
        if k2 == k {
            assert(e == v);
            let v0 = choose|v0: Effect| #[trigger] a.has_pair(k, v0) && same_kind(v0, v);
            assert(a.has_pair(k, v0) && same_kind(v0, e));
        } else {
            assert(a.has_pair(k2, e) && same_kind(e, e));
        }
    }
    assert forall|k2: i32| a.contains_key(k2) implies b.contains_key(k2) by {
        if k2 != k {
            assert(b.contains_key(k2));
        }
    }
    assert forall|k2: i32, e: Effect| #[trigger] a.has_pair(k2, e) implies exists|e1: Effect|
        #[trigger] b.has_pair(k2, e1) && same_kind(e1, e) by {
        if k2 == k {
            let v0 = choose|v0: Effect| #[trigger] a.has_pair(k, v0) && same_kind(v0, v);
            lemma_unique_value(a, k, e, v0);
            assert(b.has_pair(k, v) && same_kind(v, e));
        } else {
            assert(b.has_pair(k2, e) && same_kind(e, e));
        }
    }
}

/// Serializes a strip's full color buffer and submits it to the bound
/// connection's send queue (non-blocking; the writer that owns the real
/// endpoint transmits asynchronously).  A failed send signals that the
/// transport endpoint is gone: the connection entity leaves the registry
/// and the strip's connection identifier is cleared — the strip itself
/// goes on, with no output target, until external management rebinds it.
pub fn send_to_connection(
    ledstrip: &mut LedStrip,
    connection_id: i32,
    connections: &mut Registry<Connection>,
) -> (r: Result<(), DispatchError>)
    requires
        old(connections).wf(),
    ensures
        final(connections).wf(),
        final(ledstrip).colors@ == old(ledstrip).colors@,
        final(ledstrip).effects@ == old(ledstrip).effects@,
        final(ledstrip).connection_id == old(ledstrip).connection_id || final(ledstrip).connection_id is None,
        forall|k2: i32, v2: Connection|
            k2 != connection_id ==> (final(connections).has_pair(k2, v2) <==> old(connections).has_pair(k2, v2)),
        forall|k2: i32|
            k2 != connection_id ==> (final(connections).contains_key(k2) <==> old(connections).contains_key(k2)),
        !old(connections).contains_key(connection_id) ==> r == Err::<(), DispatchError>(
            DispatchError::UnknownConnection { connection_id },
        ) && final(connections).entries@ == old(connections).entries@ && final(ledstrip).connection_id == old(ledstrip).connection_id,
        forall|tcp: TcpConnection|
            #[trigger] old(connections).has_pair(connection_id, Connection::Tcp(tcp)) && tcp.live
                ==> r is Ok && final(ledstrip).connection_id == old(ledstrip).connection_id && (
            exists|t2: TcpConnection|
                {
                    &&& #[trigger] final(connections).has_pair(connection_id, Connection::Tcp(t2))
                    &&& t2.live
                    &&& t2.data_queue@.len() == tcp.data_queue@.len() + 1
                    &&& t2.data_queue@.drop_last() == tcp.data_queue@
                    &&& t2.data_queue@.last()@ == serialized(old(ledstrip).colors@)
                }),
        forall|tcp: TcpConnection|
            #[trigger] old(connections).has_pair(connection_id, Connection::Tcp(tcp)) && !tcp.live
                ==> r is Ok && !final(connections).contains_key(connection_id) && final(ledstrip).connection_id is None,
        forall|u: crate::connections::UsbConnection|
            #[trigger] old(connections).has_pair(connection_id, Connection::Usb(u)) ==> r == Err::<
                (),
                DispatchError,
            >(DispatchError::UnimplementedTransport { connection_id }) && final(connections).has_pair(connection_id, Connection::Usb(u)) && final(ledstrip).connection_id == old(ledstrip).connection_id,
        (r matches Err(DispatchError::UnimplementedTransport { .. })) ==> r == Err::<
            (),
            DispatchError,
        >(DispatchError::UnimplementedTransport { connection_id }) && (exists|
            u: crate::connections::UsbConnection,
        |
            #[trigger] old(connections).has_pair(connection_id, Connection::Usb(u))),
        forall|u: crate::connections::UsbConnection|
            #[trigger] final(connections).has_pair(connection_id, Connection::Usb(u)) ==> old(
                connections,
            ).has_pair(connection_id, Connection::Usb(u)),
        forall|t2: TcpConnection|
            #[trigger] final(connections).has_pair(connection_id, Connection::Tcp(t2)) ==> (old(
                connections,
            ).has_pair(connection_id, Connection::Tcp(t2)) || (exists|tcp: TcpConnection|
                {
                    &&& #[trigger] old(connections).has_pair(connection_id, Connection::Tcp(tcp))
                    &&& tcp.live
                    &&& t2.live
                    &&& t2.data_queue@.len() == tcp.data_queue@.len() + 1
                    &&& t2.data_queue@.drop_last() == tcp.data_queue@
                    &&& t2.data_queue@.last()@ == serialized(old(ledstrip).colors@)
                })),
{
    let data = serialize_colors(&ledstrip.colors);
    let taken = connections.take(connection_id);
    match taken {
        None => Err(DispatchError::UnknownConnection { connection_id }),
        Some(Connection::Tcp(mut tcp)) => {
            let ghost tcp0 = tcp;
            let sent = tcp.send(data);
            match sent {
                Ok(_) => {
                    connections.insert(connection_id, Connection::Tcp(tcp));
                    proof {
                        assert forall|t2: TcpConnection|
                            #[trigger] connections.has_pair(connection_id, Connection::Tcp(t2))
                                implies t2 == tcp by {
                            lemma_unique_value(
                                *connections,
                                connection_id,
                                Connection::Tcp(t2),
                                Connection::Tcp(tcp),
                            );
                        }
                        assert forall|u: crate::connections::UsbConnection|
                            #[trigger] connections.has_pair(connection_id, Connection::Usb(u))
                                implies false by {
                            lemma_unique_value(
                                *connections,
                                connection_id,
                                Connection::Usb(u),
                                Connection::Tcp(tcp),
                            );
                        }
                        assert(tcp.data_queue@.drop_last() =~= tcp0.data_queue@);
                        assert forall|t: TcpConnection|
                            #[trigger] old(connections).has_pair(connection_id, Connection::Tcp(t))
                                && t.live implies exists|t2: TcpConnection|
                            {
                                &&& #[trigger] connections.has_pair(
                                    connection_id,
                                    Connection::Tcp(t2),
                                )
                                &&& t2.live
                                &&& t2.data_queue@.len() == t.data_queue@.len() + 1
                                &&& t2.data_queue@.drop_last() == t.data_queue@
                                &&& t2.data_queue@.last()@ == serialized(old(ledstrip).colors@)
                            } by {
                            lemma_unique_value(
                                *old(connections),
                                connection_id,
                                Connection::Tcp(t),
                                Connection::Tcp(tcp0),
                            );
                            assert(connections.has_pair(connection_id, Connection::Tcp(tcp)));
                            assert(tcp.data_queue@.drop_last() =~= tcp0.data_queue@);
                        }
                    }
                    Ok(())
                },
                Err(_) => {
                    // A dead endpoint: drop the connection entity and
                    // unbind the strip.
                    ledstrip.connection_id = None;
                    proof {
                        assert forall|t: TcpConnection|
                            #[trigger] old(connections).has_pair(connection_id, Connection::Tcp(t))
                                implies !t.live by {
                            lemma_unique_value(
                                *old(connections),
                                connection_id,
                                Connection::Tcp(t),
                                Connection::Tcp(tcp0),
                            );
                        }
                    }
                    Ok(())
                },
            }
        },
        Some(Connection::Usb(u)) => {
            let ghost u0 = u;
            connections.insert(connection_id, Connection::Usb(u));
            proof {
                assert forall|t: TcpConnection|
                    #[trigger] old(connections).has_pair(connection_id, Connection::Tcp(t))
                        implies false by {
                    lemma_unique_value(
                        *old(connections),
                        connection_id,
                        Connection::Tcp(t),
                        Connection::Usb(u0),
                    );
                }
                assert forall|t2: TcpConnection|
                    #[trigger] connections.has_pair(connection_id, Connection::Tcp(t2))
                        implies false by {
                    lemma_unique_value(
                        *connections,
                        connection_id,
                        Connection::Tcp(t2),
                        Connection::Usb(u0),
                    );
                }
                assert forall|u2: crate::connections::UsbConnection|
                    #[trigger] connections.has_pair(connection_id, Connection::Usb(u2))
                        implies old(connections).has_pair(connection_id, Connection::Usb(u2)) by {
                    lemma_unique_value(
                        *connections,
                        connection_id,
                        Connection::Usb(u2),
                        Connection::Usb(u0),
                    );
                }
            }
            Err(DispatchError::UnimplementedTransport { connection_id })
        },
    }
}

/// One pass produces exactly one color buffer per strip.
pub proof fn lemma_run_strips_len(
    strips: Seq<LedStrip>,
    effects0: Registry<Effect>,
    settings: Registry<Settings>,
    links: Registry<i32>,
    states: Map<i32, (Seq<Riple>, u64)>,
)
    ensures
        run_strips(strips, effects0, settings, links, states).0.len() == strips.len(),
    decreases strips.len(),
{
    reveal(run_strips);
    if strips.len() > 0 {
        lemma_run_strips_len(strips.drop_last(), effects0, settings, links, states);
    }
}

/// A queued frame survives a later dispatch: whatever entry each
/// stream connection under `cid2` held before the dispatch of `cid`,
/// the connection under `cid2` afterwards still holds it.
#[verifier::spinoff_prover]
proof fn lemma_queue_entry_survives(
    conns_pre: Registry<Connection>,
    conns_post: Registry<Connection>,
    cid: i32,
    frame: Seq<Color>,
    sres: Result<(), DispatchError>,
    cid2: i32,
    t2: TcpConnection,
    bytes: Seq<u8>,
)
    requires
        conns_pre.wf(),
        conns_post.wf(),
        conns_post.has_pair(cid2, Connection::Tcp(t2)),
        forall|t2p: TcpConnection|
            #[trigger] conns_pre.has_pair(cid2, Connection::Tcp(t2p)) ==> exists|j: int|
                0 <= j < t2p.data_queue@.len() && (#[trigger] t2p.data_queue@[j])@ == bytes,
        forall|k2: i32, v2: Connection|
            k2 != cid ==> ((#[trigger] conns_post.has_pair(k2, v2)) <==> conns_pre.has_pair(
                k2,
                v2,
            )),
        !conns_pre.contains_key(cid) ==> conns_post.entries@ == conns_pre.entries@,
        forall|tcp: TcpConnection|
            #[trigger] conns_pre.has_pair(cid, Connection::Tcp(tcp)) && tcp.live ==> exists|
                t2x: TcpConnection,
            |
                {
                    &&& #[trigger] conns_post.has_pair(cid, Connection::Tcp(t2x))
                    &&& t2x.data_queue@.len() == tcp.data_queue@.len() + 1
                    &&& t2x.data_queue@.drop_last() == tcp.data_queue@
                    &&& t2x.data_queue@.last()@ == serialized(frame)
                },
        forall|tcp: TcpConnection|
            #[trigger] conns_pre.has_pair(cid, Connection::Tcp(tcp)) && !tcp.live
                ==> !conns_post.contains_key(cid),
        forall|u: UsbConnection|
            #[trigger] conns_pre.has_pair(cid, Connection::Usb(u)) ==> sres == Err::<
                (),
                DispatchError,
            >(DispatchError::UnimplementedTransport { connection_id: cid }),
        sres is Ok || sres matches Err(DispatchError::UnknownConnection { .. }),
    ensures
        exists|j: int|
            0 <= j < t2.data_queue@.len() && (#[trigger] t2.data_queue@[j])@ == bytes,
{
    if cid2 != cid {
        assert(conns_pre.has_pair(cid2, Connection::Tcp(t2)));
    } else {
        crate::registry::lemma_spec_get_agrees(conns_pre, cid);
        match conns_pre.spec_get(cid) {
            Option::None => {
                assert(!conns_pre.contains_key(cid));
                assert(conns_post.entries@ == conns_pre.entries@);
                assert(conns_pre.has_pair(cid, Connection::Tcp(t2)));
            },
            Option::Some(c0) => {
                assert(conns_pre.has_pair(cid, c0));
                match c0 {
                    Connection::Tcp(tcp0) => {
                        if tcp0.live {
                            let t2x = choose|t2x: TcpConnection|
                                {
                                    &&& #[trigger] conns_post.has_pair(
                                        cid,
                                        Connection::Tcp(t2x),
                                    )
                                    &&& t2x.data_queue@.len() == tcp0.data_queue@.len() + 1
                                    &&& t2x.data_queue@.drop_last() == tcp0.data_queue@
                                    &&& t2x.data_queue@.last()@ == serialized(frame)
                                };
                            lemma_unique_value(
                                conns_post,
                                cid,
                                Connection::Tcp(t2),
                                Connection::Tcp(t2x),
                            );
                            let j = choose|j: int|
                                0 <= j < tcp0.data_queue@.len() && (
                                #[trigger] tcp0.data_queue@[j])@ == bytes;
                            assert(t2.data_queue@[j] == t2.data_queue@.drop_last()[j]);
                        } else {
                            assert(!conns_post.contains_key(cid));
                            assert(false);
                        }
                    },
                    Connection::Usb(u0) => {
                        assert(conns_pre.has_pair(cid, Connection::Usb(u0)));
                        assert(false);
                    },
                }
            },
        }
    }
}

/// After a completed dispatch to `cid`, whatever stream connection
/// stands under `cid` holds the dispatched frame.
#[verifier::spinoff_prover]
proof fn lemma_dispatched_frame_queued(
    conns_pre: Registry<Connection>,
    conns_post: Registry<Connection>,
    cid: i32,
    frame: Seq<Color>,
    sres: Result<(), DispatchError>,
    t2: TcpConnection,
)
    requires
        conns_pre.wf(),
        conns_post.wf(),
        conns_post.has_pair(cid, Connection::Tcp(t2)),
        !conns_pre.contains_key(cid) ==> conns_post.entries@ == conns_pre.entries@,
        forall|tcp: TcpConnection|
            #[trigger] conns_pre.has_pair(cid, Connection::Tcp(tcp)) && tcp.live ==> exists|
                t2x: TcpConnection,
            |
                {
                    &&& #[trigger] conns_post.has_pair(cid, Connection::Tcp(t2x))
                    &&& t2x.data_queue@.len() == tcp.data_queue@.len() + 1
                    &&& t2x.data_queue@.drop_last() == tcp.data_queue@
                    &&& t2x.data_queue@.last()@ == serialized(frame)
                },
        forall|tcp: TcpConnection|
            #[trigger] conns_pre.has_pair(cid, Connection::Tcp(tcp)) && !tcp.live
                ==> !conns_post.contains_key(cid),
        forall|u: UsbConnection|
            #[trigger] conns_pre.has_pair(cid, Connection::Usb(u)) ==> sres == Err::<
                (),
                DispatchError,
            >(DispatchError::UnimplementedTransport { connection_id: cid }),
        sres is Ok || sres matches Err(DispatchError::UnknownConnection { .. }),
    ensures
        exists|j: int|
            0 <= j < t2.data_queue@.len() && (#[trigger] t2.data_queue@[j])@ == serialized(frame),
{
    crate::registry::lemma_spec_get_agrees(conns_pre, cid);
    match conns_pre.spec_get(cid) {
        Option::None => {
            assert(conns_post.entries@ == conns_pre.entries@);
            assert(conns_pre.has_pair(cid, Connection::Tcp(t2)));
            assert(conns_pre.contains_key(cid));
            assert(false);
        },
        Option::Some(c0) => {
            assert(conns_pre.has_pair(cid, c0));
            match c0 {
                Connection::Tcp(tcp0) => {
                    if tcp0.live {
                        let t2x = choose|t2x: TcpConnection|
                            {
                                &&& #[trigger] conns_post.has_pair(cid, Connection::Tcp(t2x))
                                &&& t2x.data_queue@.len() == tcp0.data_queue@.len() + 1
                                &&& t2x.data_queue@.drop_last() == tcp0.data_queue@
                                &&& t2x.data_queue@.last()@ == serialized(frame)
                            };
                        lemma_unique_value(
                            conns_post,
                            cid,
                            Connection::Tcp(t2),
                            Connection::Tcp(t2x),
                        );
                        assert(t2.data_queue@[t2.data_queue@.len() - 1] == t2.data_queue@.last());
                    } else {
                        assert(!conns_post.contains_key(cid));
                        assert(false);
                    }
                },
                Connection::Usb(u0) => {
                    assert(conns_pre.has_pair(cid, Connection::Usb(u0)));
                    assert(false);
                },
            }
        },
    }
}

/// One scheduler tick: for every strip, in order, resolve and run its
/// effect bindings in insertion order, then dispatch the strip's colors
/// if it has a bound connection.  A missing connection identifier is
/// skipped for the tick (external management may rebind it); a variant
/// mismatch, a dangling binding or an unimplemented transport is fatal
/// and stops the tick.
#[verifier::rlimit(100)]
#[verifier::spinoff_prover]
pub fn tick(
    ledstrips: &mut Vec<LedStrip>,
    effects: &mut Registry<Effect>,
    settings: &Registry<Settings>,
    effect_settings: &Registry<i32>,
    connections: &mut Registry<Connection>,
) -> (r: Result<(), FatalError>)
    requires
        old(effects).wf(),
        settings.wf(),
        effect_settings.wf(),
        old(connections).wf(),
    ensures
        final(effects).wf(),
        final(connections).wf(),
        kinds_preserved(*old(effects), *final(effects)),
        final(ledstrips)@.len() == old(ledstrips)@.len(),
        forall|si: int|
            0 <= si < old(ledstrips)@.len() ==> {
                &&& (#[trigger] final(ledstrips)@[si]).colors@.len()
                    == old(ledstrips)@[si].colors@.len()
                &&& final(ledstrips)@[si].effects@ == old(ledstrips)@[si].effects@
                &&& (final(ledstrips)@[si].connection_id == old(ledstrips)@[si].connection_id
                    || final(ledstrips)@[si].connection_id is None)
            },
        r is Ok ==> forall|si: int, bi: int|
            0 <= si < old(ledstrips)@.len() && 0 <= bi < old(ledstrips)@[si].effects@.len()
                ==> binding_sound(
                #[trigger] old(ledstrips)@[si].effects@[bi],
                old(ledstrips)@[si].colors@.len() as int,
                *old(effects),
                *settings,
                *effect_settings,
            ),
        r is Err ==> (exists|sf: int, bi: int|
            0 <= sf < old(ledstrips)@.len() && 0 <= bi < old(ledstrips)@[sf].effects@.len()
                && !binding_sound(
                #[trigger] old(ledstrips)@[sf].effects@[bi],
                old(ledstrips)@[sf].colors@.len() as int,
                *old(effects),
                *settings,
                *effect_settings,
            ) && (forall|cid: i32, c: Connection|
                !(exists|t: int|
                    0 <= t < sf && (#[trigger] old(ledstrips)@[t]).connection_id == Some(cid))
                    ==> ((#[trigger] final(connections).has_pair(cid, c)) <==> old(
                    connections,
                ).has_pair(cid, c)))) || (exists|si: int, cid: i32, u: UsbConnection|
            {
                &&& r == Err::<(), FatalError>(
                    FatalError::UnimplementedTransport { connection_id: cid },
                )
                &&& 0 <= si < old(ledstrips)@.len()
                &&& (#[trigger] old(ledstrips)@[si]).connection_id == Some(cid)
                &&& #[trigger] old(connections).has_pair(cid, Connection::Usb(u))
            }),
        r is Ok ==> forall|si: int|
            0 <= si < old(ledstrips)@.len() ==> (#[trigger] final(ledstrips)@[si]).colors@
                == run_strips(
                old(ledstrips)@,
                *old(effects),
                *settings,
                *effect_settings,
                states_of(*old(effects)),
            ).0[si],
        r is Ok ==> states_of(*final(effects)) == run_strips(
            old(ledstrips)@,
            *old(effects),
            *settings,
            *effect_settings,
            states_of(*old(effects)),
        ).1,

        forall|cid: i32, c: Connection|
            !(exists|t: int|
                0 <= t < old(ledstrips)@.len() && (#[trigger] old(ledstrips)@[t]).connection_id
                    == Some(cid)) ==> ((#[trigger] final(connections).has_pair(cid, c))
                <==> old(connections).has_pair(cid, c)),
        r is Ok ==> forall|si: int, cid: i32, t2: TcpConnection|
            0 <= si < old(ledstrips)@.len() && (#[trigger] old(ledstrips)@[si]).connection_id
                == Some(cid) && #[trigger] final(connections).has_pair(cid, Connection::Tcp(t2))
                ==> exists|j: int|
                0 <= j < t2.data_queue@.len() && (#[trigger] t2.data_queue@[j])@ == serialized(
                    run_strips(
                        old(ledstrips)@,
                        *old(effects),
                        *settings,
                        *effect_settings,
                        states_of(*old(effects)),
                    ).0[si],
                ),
{
    proof {
        reveal(run_strips);
        assert(old(ledstrips)@.take(0) =~= Seq::<LedStrip>::empty());
    }
    let n: usize = ledstrips.len();
    let mut si: usize = 0;
    while si < n
        invariant
            si <= n,
            n == ledstrips@.len(),
            ledstrips@.len() == old(ledstrips)@.len(),
            old(effects).wf(),
            effects.wf(),
            settings.wf(),
            effect_settings.wf(),
            old(connections).wf(),
            connections.wf(),
            kinds_preserved(*old(effects), *effects),
            kinds_preserved(*effects, *old(effects)),
            forall|t: int| si <= t < n ==> ledstrips@[t] == old(ledstrips)@[t],
            forall|t: int|
                0 <= t < si ==> {
                    &&& (#[trigger] ledstrips@[t]).colors@.len()
                        == old(ledstrips)@[t].colors@.len()
                    &&& ledstrips@[t].effects@ == old(ledstrips)@[t].effects@
                    &&& (ledstrips@[t].connection_id == old(ledstrips)@[t].connection_id
                        || ledstrips@[t].connection_id is None)
                },
            forall|t: int, bi: int|
                0 <= t < si && 0 <= bi < old(ledstrips)@[t].effects@.len() ==> binding_sound(
                    #[trigger] old(ledstrips)@[t].effects@[bi],
                    old(ledstrips)@[t].colors@.len() as int,
                    *old(effects),
                    *settings,
                    *effect_settings,
                ),
            forall|t: int|
                0 <= t < si ==> (#[trigger] ledstrips@[t]).colors@ == run_strips(
                    old(ledstrips)@.take(si as int),
                    *old(effects),
                    *settings,
                    *effect_settings,
                    states_of(*old(effects)),
                ).0[t],
            states_of(*effects) == run_strips(
                old(ledstrips)@.take(si as int),
                *old(effects),
                *settings,
                *effect_settings,
                states_of(*old(effects)),
            ).1,
            forall|cid: i32, u: UsbConnection|
                (#[trigger] connections.has_pair(cid, Connection::Usb(u))) <==> old(
                    connections,
                ).has_pair(cid, Connection::Usb(u)),
            forall|cid: i32, c: Connection|
                !(exists|t: int|
                    0 <= t < si && (#[trigger] old(ledstrips)@[t]).connection_id == Some(cid))
                    ==> ((#[trigger] connections.has_pair(cid, c)) <==> old(
                    connections,
                ).has_pair(cid, c)),
            forall|t: int, cid: i32, t2: TcpConnection|
                0 <= t < si && (#[trigger] old(ledstrips)@[t]).connection_id == Some(cid)
                    && #[trigger] connections.has_pair(cid, Connection::Tcp(t2)) ==> exists|j: int|
                    0 <= j < t2.data_queue@.len() && (#[trigger] t2.data_queue@[j])@ == serialized(
                        run_strips(
                            old(ledstrips)@.take(si as int),
                            *old(effects),
                            *settings,
                            *effect_settings,
                            states_of(*old(effects)),
                        ).0[t],
                    ),
        decreases n - si,
    {
        let ghost pre_loop = ledstrips@;
        let ghost pre_eff = *effects;
        let ghost prefix = run_strips(
            old(ledstrips)@.take(si as int),
            *old(effects),
            *settings,
            *effect_settings,
            states_of(*old(effects)),
        );
        let mut strip = ledstrips.remove(si);
        proof {
            assert(strip == old(ledstrips)@[si as int]);
        }
        let res = update_strip_effects(&mut strip, effects, settings, effect_settings);
        proof {
            lemma_kinds_preserved_trans(*old(effects), pre_eff, *effects);
            lemma_kinds_preserved_trans(*effects, pre_eff, *old(effects));
        }
        match res {
            Err(e) => {
                ledstrips.insert(si, strip);
                proof {
                    assert(ledstrips@ =~= pre_loop.update(si as int, strip));
                    let bi = choose|bi: int|
                        0 <= bi < old(ledstrips)@[si as int].effects@.len() && !binding_sound(
                            #[trigger] old(ledstrips)@[si as int].effects@[bi],
                            old(ledstrips)@[si as int].colors@.len() as int,
                            pre_eff,
                            *settings,
                            *effect_settings,
                        );
                    if binding_sound(
                        old(ledstrips)@[si as int].effects@[bi],
                        old(ledstrips)@[si as int].colors@.len() as int,
                        *old(effects),
                        *settings,
                        *effect_settings,
                    ) {
                        lemma_binding_sound_transfer(
                            old(ledstrips)@[si as int].effects@[bi],
                            old(ledstrips)@[si as int].colors@.len() as int,
                            pre_eff,
                            *old(effects),
                            *settings,
                            *effect_settings,
                        );
                    }
                }
                return Err(e);
            },
            Ok(_) => {},
        }
        let ghost step_res = run_bindings(
            old(ledstrips)@[si as int].colors@,
            old(ledstrips)@[si as int].effects@,
            *old(effects),
            *settings,
            *effect_settings,
            prefix.1,
        );
        proof {
            assert forall|bi: int|
                0 <= bi < old(ledstrips)@[si as int].effects@.len() implies binding_sound(
                #[trigger] old(ledstrips)@[si as int].effects@[bi],
                old(ledstrips)@[si as int].colors@.len() as int,
                *old(effects),
                *settings,
                *effect_settings,
            ) by {
                lemma_binding_sound_transfer(
                    old(ledstrips)@[si as int].effects@[bi],
                    old(ledstrips)@[si as int].colors@.len() as int,
                    *old(effects),
                    pre_eff,
                    *settings,
                    *effect_settings,
                );
            }
            assert(states_of(pre_eff) == prefix.1);
            lemma_run_bindings_same_kinds(
                old(ledstrips)@[si as int].colors@,
                old(ledstrips)@[si as int].effects@,
                *old(effects),
                pre_eff,
                *settings,
                *effect_settings,
                prefix.1,
            );
            assert(strip.colors@ == step_res.0);
            assert(states_of(*effects) == step_res.1);
        }
        let conn = strip.connection_id;
        match conn {
            Some(connection_id) => {
                let ghost conns_pre = *connections;
                let sres = send_to_connection(&mut strip, connection_id, connections);
                proof {
                    assert(old(ledstrips)@[si as int].connection_id == Some(connection_id));
                    assert forall|cid2: i32, u: UsbConnection|
                        (#[trigger] connections.has_pair(cid2, Connection::Usb(u))) <==> old(
                            connections,
                        ).has_pair(cid2, Connection::Usb(u)) by {
                        if cid2 == connection_id {
                            if connections.has_pair(cid2, Connection::Usb(u)) {
                                assert(conns_pre.has_pair(cid2, Connection::Usb(u)));
                            }
                            if old(connections).has_pair(cid2, Connection::Usb(u)) {
                                assert(conns_pre.has_pair(cid2, Connection::Usb(u)));
                            }
                        }
                    }
                    assert forall|cid2: i32, c: Connection|
                        !(exists|t: int|
                            0 <= t < si + 1 && (#[trigger] old(ledstrips)@[t]).connection_id
                                == Some(cid2)) implies ((#[trigger] connections.has_pair(
                        cid2,
                        c,
                    )) <==> old(connections).has_pair(cid2, c)) by {
                        assert(0 <= si < si + 1 && old(ledstrips)@[si as int].connection_id
                            == Some(connection_id));
                        assert(cid2 != connection_id);
                    }
                }
                match sres {
                    Ok(_) => {},
                    Err(DispatchError::UnknownConnection { .. }) => {
                        // The identifier names no connection: logged by
                        // the embedding process and skipped, never fatal.
                    },
                    Err(DispatchError::UnimplementedTransport { .. }) => {
                        ledstrips.insert(si, strip);
                        proof {
                            assert(ledstrips@ =~= pre_loop.update(si as int, strip));
                            assert(sres == Err::<(), DispatchError>(
                                DispatchError::UnimplementedTransport { connection_id },
                            ));
                            let u = choose|u: UsbConnection|
                                #[trigger] conns_pre.has_pair(
                                    connection_id,
                                    Connection::Usb(u),
                                );
                            assert(old(connections).has_pair(connection_id, Connection::Usb(u)));
                            assert(0 <= si < old(ledstrips)@.len());
                            assert(old(ledstrips)@[si as int].connection_id == Some(
                                connection_id,
                            ));
                            assert(exists|si2: int, cid2: i32, u2: UsbConnection|
                                {
                                    &&& Err::<(), FatalError>(
                                        FatalError::UnimplementedTransport { connection_id },
                                    ) == Err::<(), FatalError>(
                                        FatalError::UnimplementedTransport {
                                            connection_id: cid2,
                                        },
                                    )
                                    &&& 0 <= si2 < old(ledstrips)@.len()
                                    &&& (#[trigger] old(ledstrips)@[si2]).connection_id == Some(
                                        cid2,
                                    )
                                    &&& #[trigger] old(connections).has_pair(
                                        cid2,
                                        Connection::Usb(u2),
                                    )
                                }) by {
                                assert(old(ledstrips)@[si as int].connection_id == Some(
                                    connection_id,
                                ) && old(connections).has_pair(
                                    connection_id,
                                    Connection::Usb(u),
                                ));
                            }
                        }
                        return Err(FatalError::UnimplementedTransport { connection_id });
                    },
                }
                proof {
                    assert forall|t: int, cid2: i32, t2: TcpConnection|
                        0 <= t < si && (#[trigger] old(ledstrips)@[t]).connection_id == Some(cid2)
                            && #[trigger] connections.has_pair(cid2, Connection::Tcp(t2)) implies
                        exists|j: int|
                            0 <= j < t2.data_queue@.len() && (#[trigger] t2.data_queue@[j])@
                                == serialized(prefix.0[t]) by {
                        lemma_queue_entry_survives(
                            conns_pre,
                            *connections,
                            connection_id,
                            step_res.0,
                            sres,
                            cid2,
                            t2,
                            serialized(prefix.0[t]),
                        );
                    }
                    assert forall|t2: TcpConnection|
                        #[trigger] connections.has_pair(connection_id, Connection::Tcp(t2))
                            implies exists|j: int|
                            0 <= j < t2.data_queue@.len() && (#[trigger] t2.data_queue@[j])@
                                == serialized(step_res.0) by {
                        lemma_dispatched_frame_queued(
                            conns_pre,
                            *connections,
                            connection_id,
                            step_res.0,
                            sres,
                            t2,
                        );
                    }
                }
            },
            None => {},
        }
        ledstrips.insert(si, strip);
        proof {
            assert(ledstrips@ =~= pre_loop.update(si as int, strip));
            reveal(run_strips);
            assert(old(ledstrips)@.take(si + 1).drop_last() =~= old(ledstrips)@.take(si as int));
            assert(old(ledstrips)@.take(si + 1).last() == old(ledstrips)@[si as int]);
            assert(run_strips(
                old(ledstrips)@.take(si + 1),
                *old(effects),
                *settings,
                *effect_settings,
                states_of(*old(effects)),
            ) == (prefix.0.push(step_res.0), step_res.1));
            lemma_run_strips_len(
                old(ledstrips)@.take(si as int),
                *old(effects),
                *settings,
                *effect_settings,
                states_of(*old(effects)),
            );
            assert(prefix.0.len() == si);
            assert(run_strips(
                old(ledstrips)@.take(si + 1),
                *old(effects),
                *settings,
                *effect_settings,
                states_of(*old(effects)),
            ).0[si as int] == step_res.0);
            assert(forall|t: int|
                0 <= t < si ==> run_strips(
                    old(ledstrips)@.take(si + 1),
                    *old(effects),
                    *settings,
                    *effect_settings,
                    states_of(*old(effects)),
                ).0[t] == prefix.0[t]);
        }
        si = si + 1;
    }
    proof {
        assert(old(ledstrips)@.take(n as int) =~= old(ledstrips)@);
    }
    Ok(())
}

} // verus!
