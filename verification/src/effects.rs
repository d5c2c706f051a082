use vstd::prelude::*;
use vstd::string::StringExecFns;
use rand::rngs::StdRng;
use rand::Rng;
use crate::text::{text_eq, texts};

verus! {

/// The layer an effect draws on.
#[derive(Debug, Clone, Copy, PartialEq, Eq, Structural)]
pub enum EffectType {
    Background,
    Text,
}

/// The visual effects, in the order in which they are listed.
#[derive(Debug, Clone, Copy, PartialEq, Eq, Structural)]
pub enum Effect {
    Empty,
    Wave,
    Spiral,
    Normal,
    Rainbow,
    Split,
    Worm,
}

/// Every effect, in order.
pub open spec fn effects() -> Seq<Effect> {
    seq![Effect::Empty, Effect::Wave, Effect::Spiral, Effect::Normal, Effect::Rainbow, Effect::Split, Effect::Worm]
}

/// The name by which an effect is selected.
pub open spec fn effect_name(e: Effect) -> Seq<char> {
    match e {
        Effect::Empty => "empty"@,
        Effect::Wave => "wave"@,
        Effect::Spiral => "spiral"@,
        Effect::Normal => "normal"@,
        Effect::Rainbow => "rainbow"@,
        Effect::Split => "split"@,
        Effect::Worm => "worm"@,
    }
}

/// The layer an effect draws on.
pub open spec fn effect_kind(e: Effect) -> EffectType {
    match e {
        Effect::Empty | Effect::Wave | Effect::Spiral => EffectType::Background,
        _ => EffectType::Text,
    }
}

/// The effect called `name`, if any.
pub open spec fn named(name: Seq<char>) -> Option<Effect> {
    if name == "empty"@ {
        Some(Effect::Empty)
    } else if name == "wave"@ {
        Some(Effect::Wave)
    } else if name == "spiral"@ {
        Some(Effect::Spiral)
    } else if name == "normal"@ {
        Some(Effect::Normal)
    } else if name == "rainbow"@ {
        Some(Effect::Rainbow)
    } else if name == "split"@ {
        Some(Effect::Split)
    } else if name == "worm"@ {
        Some(Effect::Worm)
    } else {
        None
    }
}

/// The effects of `es` that draw on layer `kind`, in order.
pub open spec fn of_kind(es: Seq<Effect>, kind: EffectType) -> Seq<Effect>
    decreases es.len(),
{
    if es.len() == 0 {
        Seq::empty()
    } else {
        let rest = of_kind(es.drop_last(), kind);
        if effect_kind(es.last()) == kind {
            rest.push(es.last())
        } else {
            rest
        }
    }
}

/// One line ` - name` for each effect of `es`.
pub open spec fn listing_lines(es: Seq<Effect>) -> Seq<char>
    decreases es.len(),
{
    if es.len() == 0 {
        Seq::empty()
    } else {
        listing_lines(es.drop_last()) + " - "@ + effect_name(es.last()) + "\n"@
    }
}

/// The help text that lists the effects of each layer.
pub open spec fn effects_listing() -> Seq<char> {
    "Background effects :\n"@ + listing_lines(of_kind(effects(), EffectType::Background))
        + "\nText effects :\n"@ + listing_lines(of_kind(effects(), EffectType::Text))
}

/// The names in `selection` that name an effect of layer `kind`, as effects,
/// in order (a name given twice counts twice).
pub open spec fn selected_of_kind(kind: EffectType, selection: Seq<Seq<char>>) -> Seq<Effect>
    decreases selection.len(),
{
    if selection.len() == 0 {
        Seq::empty()
    } else {
        let rest = selected_of_kind(kind, selection.drop_last());
        match named(selection.last()) {
            Some(e) => if effect_kind(e) == kind {
                rest.push(e)
            } else {
                rest
            },
            None => rest,
        }
    }
}

/// The effects to choose from on layer `kind`: those selected by name, or
/// every effect of that layer when the selection names none of them.
pub open spec fn candidates(kind: EffectType, selection: Seq<Seq<char>>) -> Seq<Effect> {
    if selected_of_kind(kind, selection).len() > 0 {
        selected_of_kind(kind, selection)
    } else {
        of_kind(effects(), kind)
    }
}

proof fn lemma_names_distinct()
    ensures
        "empty"@ != "wave"@, "empty"@ != "spiral"@, "empty"@ != "normal"@, "empty"@ != "rainbow"@,
        "empty"@ != "split"@, "empty"@ != "worm"@,
        "wave"@ != "spiral"@, "wave"@ != "normal"@, "wave"@ != "rainbow"@, "wave"@ != "split"@, "wave"@ != "worm"@,
        "spiral"@ != "normal"@, "spiral"@ != "rainbow"@, "spiral"@ != "split"@, "spiral"@ != "worm"@,
        "normal"@ != "rainbow"@, "normal"@ != "split"@, "normal"@ != "worm"@,
        "rainbow"@ != "split"@, "rainbow"@ != "worm"@,
        "split"@ != "worm"@,
{
    reveal_strlit("empty");
    reveal_strlit("wave");
    reveal_strlit("spiral");
    reveal_strlit("normal");
    reveal_strlit("rainbow");
    reveal_strlit("split");
    reveal_strlit("worm");
    assert("empty"@[0] != "wave"@[0]);
    assert("empty"@[0] != "spiral"@[0]);
    assert("empty"@[0] != "normal"@[0]);
    assert("empty"@[0] != "rainbow"@[0]);
    assert("empty"@[0] != "split"@[0]);
    assert("empty"@[0] != "worm"@[0]);
    assert("wave"@[0] != "spiral"@[0]);
    assert("wave"@[0] != "normal"@[0]);
    assert("wave"@[0] != "rainbow"@[0]);
    assert("wave"@[0] != "split"@[0]);
    assert("wave"@.len() != "worm"@.len() || "wave"@[1] != "worm"@[1]);
    assert("spiral"@[0] != "normal"@[0]);
    assert("spiral"@[0] != "rainbow"@[0]);
    assert("spiral"@.len() != "split"@.len() || "spiral"@[1] != "split"@[1]);
    assert("spiral"@[0] != "worm"@[0]);
    assert("normal"@[0] != "rainbow"@[0]);
    assert("normal"@[0] != "split"@[0]);
    assert("normal"@[0] != "worm"@[0]);
    assert("rainbow"@[0] != "split"@[0]);
    assert("rainbow"@[0] != "worm"@[0]);
    assert("split"@[0] != "worm"@[0]);
}

/// The help text, written out.
#[verifier::rlimit(50)]
pub proof fn lemma_effects_listing_text()
    ensures
        effects_listing() == "Background effects :\n - empty\n - wave\n - spiral\n\nText effects :\n - normal\n - rainbow\n - split\n - worm\n"@,
{
    reveal_with_fuel(of_kind, 8);
    let es = effects();
    assert(es.drop_last() =~= seq![Effect::Empty, Effect::Wave, Effect::Spiral, Effect::Normal, Effect::Rainbow, Effect::Split]);
    assert(es.drop_last().drop_last() =~= seq![Effect::Empty, Effect::Wave, Effect::Spiral, Effect::Normal, Effect::Rainbow]);
    assert(es.drop_last().drop_last().drop_last() =~= seq![Effect::Empty, Effect::Wave, Effect::Spiral, Effect::Normal]);
    assert(es.drop_last().drop_last().drop_last().drop_last() =~= seq![Effect::Empty, Effect::Wave, Effect::Spiral]);
    assert(seq![Effect::Empty, Effect::Wave, Effect::Spiral].drop_last() =~= seq![Effect::Empty, Effect::Wave]);
    assert(seq![Effect::Empty, Effect::Wave].drop_last() =~= seq![Effect::Empty]);
    assert(seq![Effect::Empty].drop_last() =~= Seq::<Effect>::empty());
    let bg = seq![Effect::Empty, Effect::Wave, Effect::Spiral];
    let tx = seq![Effect::Normal, Effect::Rainbow, Effect::Split, Effect::Worm];
    assert(of_kind(es, EffectType::Background) =~= bg);
    assert(of_kind(es, EffectType::Text) =~= tx);
    reveal_with_fuel(listing_lines, 5);
    assert(bg.drop_last() =~= seq![Effect::Empty, Effect::Wave]);
    assert(tx.drop_last() =~= seq![Effect::Normal, Effect::Rainbow, Effect::Split]);
    assert(tx.drop_last().drop_last() =~= seq![Effect::Normal, Effect::Rainbow]);
    assert(tx.drop_last().drop_last().drop_last() =~= seq![Effect::Normal]);
    assert(seq![Effect::Normal].drop_last() =~= Seq::<Effect>::empty());
    reveal_strlit("Background effects :\n");
    reveal_strlit("\nText effects :\n");
    reveal_strlit(" - ");
    reveal_strlit("\n");
    reveal_strlit("empty");
    reveal_strlit("wave");
    reveal_strlit("spiral");
    reveal_strlit("normal");
    reveal_strlit("rainbow");
    reveal_strlit("split");
    reveal_strlit("worm");
    reveal_strlit("Background effects :\n - empty\n - wave\n - spiral\n\nText effects :\n - normal\n - rainbow\n - split\n - worm\n");
    assert(effects_listing() =~= "Background effects :\n - empty\n - wave\n - spiral\n\nText effects :\n - normal\n - rainbow\n - split\n - worm\n"@);
}

/// Looking up the name of an effect gives that effect back.
pub proof fn lemma_named_effect_name(e: Effect)
    ensures
        named(effect_name(e)) == Some(e),
{
    lemma_names_distinct();
}

/// Every effect listed is known by its name: none of the names of
/// `effects()` is reported as unknown.
pub proof fn lemma_listed_names_are_known()
    ensures
        forall|i: int| 0 <= i < effects().len() ==> named(#[trigger] effect_name(effects()[i])) == Some(effects()[i]),
{
    lemma_names_distinct();
}

impl Effect {
    /// The name by which the effect is selected.
    pub fn name(&self) -> (r: &'static str)
        ensures
            r@ == effect_name(*self),
    {
        match self {
            Effect::Empty => "empty",
            Effect::Wave => "wave",
            Effect::Spiral => "spiral",
            Effect::Normal => "normal",
            Effect::Rainbow => "rainbow",
            Effect::Split => "split",
            Effect::Worm => "worm",
        }
    }

    /// The layer the effect draws on.
    pub fn kind(&self) -> (r: EffectType)
        ensures
            r == effect_kind(*self),
    {
        match self {
            Effect::Empty | Effect::Wave | Effect::Spiral => EffectType::Background,
            _ => EffectType::Text,
        }
    }

    /// The effect called `name`, if any.
    pub fn from_name(name: &String) -> (r: Option<Effect>)
        ensures
            r == named(name@),
            name@ == "empty"@ ==> r == Some(Effect::Empty),
            name@ == "wave"@ ==> r == Some(Effect::Wave),
            name@ == "spiral"@ ==> r == Some(Effect::Spiral),
            name@ == "normal"@ ==> r == Some(Effect::Normal),
            name@ == "rainbow"@ ==> r == Some(Effect::Rainbow),
            name@ == "split"@ ==> r == Some(Effect::Split),
            name@ == "worm"@ ==> r == Some(Effect::Worm),
            forall|e: Effect| name@ == #[trigger] effect_name(e) ==> r == Some(e),
    {
        proof {
            lemma_names_distinct();
        }
        if text_eq(name, "empty") {
            Some(Effect::Empty)
        } else if text_eq(name, "wave") {
            Some(Effect::Wave)
        } else if text_eq(name, "spiral") {
            Some(Effect::Spiral)
        } else if text_eq(name, "normal") {
            Some(Effect::Normal)
        } else if text_eq(name, "rainbow") {
            Some(Effect::Rainbow)
        } else if text_eq(name, "split") {
            Some(Effect::Split)
        } else if text_eq(name, "worm") {
            Some(Effect::Worm)
        } else {
            None
        }
    }
}

/// Every effect, in order.
pub fn all_effects() -> (v: Vec<Effect>)
    ensures
        v@ == effects(),
{
    let v = vec![Effect::Empty, Effect::Wave, Effect::Spiral, Effect::Normal, Effect::Rainbow, Effect::Split, Effect::Worm];
    assert(v@ =~= effects());
    v
}

fn effects_of_kind(kind: EffectType) -> (v: Vec<Effect>)
    ensures
        v@ == of_kind(effects(), kind),
{
    let all = all_effects();
    let mut v: Vec<Effect> = Vec::new();
    let mut i: usize = 0;
    while i < all.len()
        invariant
            all@ == effects(),
            i <= all@.len(),
            v@ == of_kind(effects().take(i as int), kind),
        decreases all@.len() - i,
    {
        assert(effects().take(i + 1).drop_last() =~= effects().take(i as int));
        if all[i].kind() == kind {
            v.push(all[i]);
        }
        i = i + 1;
    }
    assert(effects().take(all@.len() as int) =~= effects());
    v
}

fn push_listing(s: &mut String, es: &Vec<Effect>)
    ensures
        final(s)@ == old(s)@ + listing_lines(es@),
{
    let mut i: usize = 0;
    while i < es.len()
        invariant
            i <= es@.len(),
            s@ == old(s)@ + listing_lines(es@.take(i as int)),
        decreases es@.len() - i,
    {
        assert(es@.take(i + 1).drop_last() =~= es@.take(i as int));
        s.append(" - ");
        s.append(es[i].name());
        s.append("\n");
        i = i + 1;
    }
    assert(es@.take(es@.len() as int) =~= es@);
}

/// The help text that lists the background effects, then the text effects.
pub fn list_effects() -> (r: String)
    ensures
        r@ == effects_listing(),
{
    let mut fx = String::from_str("Background effects :\n");
    push_listing(&mut fx, &effects_of_kind(EffectType::Background));
    fx.append("\nText effects :\n");
    push_listing(&mut fx, &effects_of_kind(EffectType::Text));
    fx
}

/// The first name in `selected` that names no effect, if any.
pub fn find_unknown_effect(selected: &Vec<String>) -> (r: Option<usize>)
    ensures
        r is None <==> forall|i: int| 0 <= i < selected@.len() ==> (#[trigger] named(selected@[i]@)) is Some,
        r matches Some(i) ==> i < selected@.len() && named(selected@[i as int]@) is None
            && forall|j: int| 0 <= j < i ==> (#[trigger] named(selected@[j]@)) is Some,
{
    let mut i: usize = 0;
    while i < selected.len()
        invariant
            i <= selected@.len(),
            forall|j: int| 0 <= j < i ==> (#[trigger] named(selected@[j]@)) is Some,
        decreases selected@.len() - i,
    {
        if Effect::from_name(&selected[i]).is_none() {
            return Some(i);
        }
        i = i + 1;
    }
    None
}

/// The effects to choose from on layer `kind` (see `candidates`).
pub fn candidate_effects(kind: EffectType, selected: &Vec<String>) -> (v: Vec<Effect>)
    ensures
        v@ == candidates(kind, texts(selected@)),
{
    let ghost sel = texts(selected@);
    let mut v: Vec<Effect> = Vec::new();
    let mut i: usize = 0;
    while i < selected.len()
        invariant
            sel == texts(selected@),
            i <= selected@.len(),
            v@ == selected_of_kind(kind, sel.take(i as int)),
        decreases selected@.len() - i,
    {
        assert(sel.take(i + 1).drop_last() =~= sel.take(i as int));
        assert(sel.take(i + 1).last() == selected@[i as int]@);
        match Effect::from_name(&selected[i]) {
            Some(e) => {
                if e.kind() == kind {
                    v.push(e);
                }
            },
            None => {},
        }
        i = i + 1;
    }
    assert(sel.take(selected@.len() as int) =~= sel);
    if v.len() == 0 {
        effects_of_kind(kind)
    } else {
        v
    }
}

/// Entry `random % candidates.len()` of `candidates`.
pub fn pick_effect(candidates: &Vec<Effect>, random: usize) -> (e: Effect)
    requires
        candidates@.len() > 0,
    ensures
        e == candidates@[(random as int) % (candidates@.len() as int)],
{
    candidates[random % candidates.len()]
}

/// The standard random number generator of `rand`, carried through as is.
#[verifier::external_type_specification]
#[verifier::external_body]
pub struct ExStdRng(rand::rngs::StdRng);

/// `rand::Rng::gen::<usize>` on a `StdRng`: draws a `usize`; nothing is
/// stated of the value drawn or of the generator's new state.
#[verifier::external_body]
fn random_usize(rng: &mut StdRng) -> usize {
    rng.gen::<usize>()
}

/// Every layer has at least one effect.
pub proof fn lemma_every_kind_has_effects(kind: EffectType)
    ensures
        of_kind(effects(), kind).len() > 0,
{
    reveal_with_fuel(of_kind, 8);
    assert(effects().drop_last().drop_last().drop_last().drop_last() =~= seq![Effect::Empty, Effect::Wave, Effect::Spiral]);
}

proof fn lemma_of_kind_kind(es: Seq<Effect>, kind: EffectType)
    ensures
        forall|i: int| 0 <= i < of_kind(es, kind).len() ==> effect_kind(#[trigger] of_kind(es, kind)[i]) == kind,
    decreases es.len(),
{
    if es.len() > 0 {
        lemma_of_kind_kind(es.drop_last(), kind);
    }
}

proof fn lemma_selected_kind(kind: EffectType, selection: Seq<Seq<char>>)
    ensures
        forall|i: int| 0 <= i < selected_of_kind(kind, selection).len() ==> effect_kind(#[trigger] selected_of_kind(kind, selection)[i]) == kind,
    decreases selection.len(),
{
    if selection.len() > 0 {
        lemma_selected_kind(kind, selection.drop_last());
    }
}

/// Every effect to choose from on a layer draws on that layer.
pub proof fn lemma_candidates_have_kind(kind: EffectType, selection: Seq<Seq<char>>)
    ensures
        forall|i: int| 0 <= i < candidates(kind, selection).len() ==> effect_kind(#[trigger] candidates(kind, selection)[i]) == kind,
{
    lemma_of_kind_kind(effects(), kind);
    lemma_selected_kind(kind, selection);
}

/// Picks at random one of the effects to choose from on layer `kind`
/// (see `candidates`); every name in `selected` must name an effect.
pub fn choose_effect(kind: EffectType, selected: &Vec<String>, rng: &mut StdRng) -> (e: Effect)
    requires
        forall|i: int| 0 <= i < selected@.len() ==> (#[trigger] named(selected@[i]@)) is Some,
    ensures
        candidates(kind, texts(selected@)).contains(e),
        effect_kind(e) == kind,
{
    let c = candidate_effects(kind, selected);
    proof {
        lemma_every_kind_has_effects(kind);
    }
    let pick = random_usize(rng);
    let e = pick_effect(&c, pick);
    assert(c@[(pick as int) % (c@.len() as int)] == e);
    proof {
        lemma_candidates_have_kind(kind, texts(selected@));
    }
    e
}

} // verus!
