//! Item rules of the terminal game: weighted picks from the item tables, and
//! the effect each flavour name selects.

use vstd::prelude::*;
use crate::cli::components::{Item, ItemKind, MonsterSpecial, PotionKind, RingKind, ScrollKind, WandKind};
use crate::data::{CategoryProb, ItemCategory, ItemTables, NamedItem};
use crate::dice::{DamageRoll, Dice};
use crate::rng::{RogueRng, rnd_outcome};
use crate::text::{contains_seq, lower_seq, lowercase_chars, push_str, vec_contains};

verus! {

/// Sum of the spawn weights.
pub open spec fn prob_total(items: Seq<NamedItem>) -> int
    decreases items.len(),
{
    if items.len() == 0 {
        0
    } else {
        prob_total(items.drop_last()) + items.last().prob
    }
}

/// The item a roll lands on: walking the table, the first item whose weight
/// exceeds what is left of the roll.
pub open spec fn pick_by_roll(items: Seq<NamedItem>, roll: int) -> Option<Seq<char>>
    decreases items.len(),
{
    if items.len() == 0 {
        None
    } else if roll < items[0].prob {
        Some(items[0].name@)
    } else {
        pick_by_roll(items.drop_first(), roll - items[0].prob)
    }
}

/// The name picked for a roll: the item it lands on, else the first item, else "nothing".
pub open spec fn picked_name(items: Seq<NamedItem>, roll: int) -> Seq<char> {
    match pick_by_roll(items, roll) {
        Some(n) => n,
        None => if items.len() > 0 { items[0].name@ } else { "nothing"@ },
    }
}

/// The range a roll is drawn from: `0..total`, or just `0` when the total is not positive.
pub open spec fn roll_bound(items: Seq<NamedItem>) -> int {
    if prob_total(items) >= 1 { prob_total(items) } else { 1 }
}

/// The running sums and the running remainder of any roll stay inside `i32`.
pub open spec fn weights_fit(items: Seq<NamedItem>) -> bool {
    forall|k: int|
        0 <= k <= items.len() ==> {
            let p = #[trigger] prob_total(items.take(k));
            &&& i32::MIN <= p <= i32::MAX
            &&& i32::MIN <= -p
            &&& roll_bound(items) - 1 - p <= i32::MAX
        }
}

proof fn lemma_prob_total_step(items: Seq<NamedItem>, i: int)
    requires
        0 <= i < items.len(),
    ensures
        prob_total(items.take(i + 1)) == prob_total(items.take(i)) + items[i].prob,
{
    assert(items.take(i + 1).drop_last() =~= items.take(i));
}

/// Pick a name from a weighted table, `rnd(total)` deciding (see
/// `named_for_roll`).
pub fn pick_named<R: RogueRng>(items: &[NamedItem], rng: &mut R) -> (name: String)
    requires
        weights_fit(items@),
    ensures
        exists|roll: int| rnd_outcome(roll_bound(items@), roll) && name@ == picked_name(items@, roll),
{
    let r = named_roll(items, rng);
    named_for_roll(items, r)
}

/// Draw the roll that picks from a weighted table: `rnd(total)`.
fn named_roll<R: RogueRng>(items: &[NamedItem], rng: &mut R) -> (r: i32)
    requires
        weights_fit(items@),
    ensures
        rnd_outcome(roll_bound(items@), r as int),
        0 <= r < roll_bound(items@),
{
    let mut total: i32 = 0;
    let mut k: usize = 0;
    while k < items.len()
        invariant
            k <= items@.len(),
            weights_fit(items@),
            total == prob_total(items@.take(k as int)),
        decreases items@.len() - k,
    {
        proof {
            lemma_prob_total_step(items@, k as int);
            assert(0 <= k + 1 <= items@.len());
            let p = prob_total(items@.take(k + 1));
        }
        total = total + items[k].prob;
        k = k + 1;
    }
    assert(items@.take(items@.len() as int) =~= items@);
    let bound = if total > 1 { total } else { 1 };
    rng.rnd(bound)
}

/// The name of a weighted table that the roll `r` (drawn from
/// `0..roll_bound`) lands on.
pub fn named_for_roll(items: &[NamedItem], r: i32) -> (name: String)
    requires
        weights_fit(items@),
        0 <= r < roll_bound(items@),
    ensures
        name@ == picked_name(items@, r as int),
{
    assert(items@.skip(0) =~= items@);
    let mut roll: i32 = r;
    let mut i: usize = 0;
    while i < items.len()
        invariant
            i <= items@.len(),
            weights_fit(items@),
            0 <= r < roll_bound(items@),
            roll == r - prob_total(items@.take(i as int)),
            pick_by_roll(items@, r as int) == pick_by_roll(items@.skip(i as int), roll as int),
        decreases items@.len() - i,
    {
        let ghost rest = items@.skip(i as int);
        assert(rest[0] == items@[i as int]);
        if roll < items[i].prob {
            let nm = items[i].name.clone();
            assert(pick_by_roll(rest, roll as int) == Some(items@[i as int].name@));
            assert(nm@ == picked_name(items@, r as int));
            return nm;
        }
        proof {
            assert(rest.drop_first() =~= items@.skip(i + 1));
            lemma_prob_total_step(items@, i as int);
            assert(0 <= i + 1 <= items@.len());
            let p = prob_total(items@.take(i + 1));
        }
        roll = roll - items[i].prob;
        i = i + 1;
    }
    assert(items@.skip(i as int).len() == 0);
    assert(pick_by_roll(items@, r as int) is None);
    let nm = if items.len() > 0 {
        items[0].name.clone()
    } else {
        String::from_str("nothing")
    };
    assert(nm@ == picked_name(items@, r as int));
    nm
}

/// The effect a scroll's flavour name selects.
pub open spec fn scroll_kind_for(name: Seq<char>) -> ScrollKind {
    let n = lower_seq(name);
    if contains_seq(n, "magic mapping"@) {
        ScrollKind::MagicMapping
    } else if contains_seq(n, "teleport"@) {
        ScrollKind::Teleport
    } else if contains_seq(n, "enchant weapon"@) {
        ScrollKind::EnchantWeapon
    } else if contains_seq(n, "enchant armor"@) || contains_seq(n, "protect armor"@) {
        ScrollKind::EnchantArmor
    } else if contains_seq(n, "aggravate"@) {
        ScrollKind::Aggravate
    } else if contains_seq(n, "identify"@) {
        ScrollKind::Identify
    } else {
        ScrollKind::Unknown
    }
}

/// Map a scroll's flavour name to a modelled effect. Unmatched scrolls read
/// harmlessly (they still exist as flavour items).
pub fn scroll_kind_from_name(name: &str) -> (k: ScrollKind)
    ensures
        k == scroll_kind_for(name@),
{
    let n = lowercase_chars(name);
    if vec_contains(&n, "magic mapping") {
        ScrollKind::MagicMapping
    } else if vec_contains(&n, "teleport") {
        ScrollKind::Teleport
    } else if vec_contains(&n, "enchant weapon") {
        ScrollKind::EnchantWeapon
    } else if vec_contains(&n, "enchant armor") || vec_contains(&n, "protect armor") {
        ScrollKind::EnchantArmor
    } else if vec_contains(&n, "aggravate") {
        ScrollKind::Aggravate
    } else if vec_contains(&n, "identify") {
        ScrollKind::Identify
    } else {
        ScrollKind::Unknown
    }
}

/// A scroll's (lowercased) flavour name `n` speaks of kind `k`.
pub open spec fn scroll_word_in(n: Seq<char>, k: ScrollKind) -> bool {
    match k {
        ScrollKind::MagicMapping => contains_seq(n, "magic mapping"@),
        ScrollKind::Teleport => contains_seq(n, "teleport"@),
        ScrollKind::EnchantWeapon => contains_seq(n, "enchant weapon"@),
        ScrollKind::EnchantArmor => contains_seq(n, "enchant armor"@) || contains_seq(n, "protect armor"@),
        ScrollKind::Aggravate => contains_seq(n, "aggravate"@),
        ScrollKind::Identify => contains_seq(n, "identify"@),
        ScrollKind::Unknown => false,
    }
}

/// A scroll is only ever given a kind its flavour name speaks of, and a name
/// that speaks of one kind alone gives that kind.
pub proof fn lemma_scroll_named(name: Seq<char>, k: ScrollKind)
    ensures
        scroll_kind_for(name) != ScrollKind::Unknown ==> scroll_word_in(lower_seq(name), scroll_kind_for(name)),
        scroll_word_in(lower_seq(name), k) && (forall|k2: ScrollKind| k2 != k ==> !#[trigger] scroll_word_in(lower_seq(name), k2))
            ==> scroll_kind_for(name) == k,
{
    let n = lower_seq(name);
    if scroll_word_in(n, k) && (forall|k2: ScrollKind| k2 != k ==> !#[trigger] scroll_word_in(n, k2)) {
        assert(k != ScrollKind::MagicMapping ==> !scroll_word_in(n, ScrollKind::MagicMapping));
        assert(k != ScrollKind::Teleport ==> !scroll_word_in(n, ScrollKind::Teleport));
        assert(k != ScrollKind::EnchantWeapon ==> !scroll_word_in(n, ScrollKind::EnchantWeapon));
        assert(k != ScrollKind::EnchantArmor ==> !scroll_word_in(n, ScrollKind::EnchantArmor));
        assert(k != ScrollKind::Aggravate ==> !scroll_word_in(n, ScrollKind::Aggravate));
        assert(k != ScrollKind::Identify ==> !scroll_word_in(n, ScrollKind::Identify));
    }
}

/// The effect a potion's flavour name selects.
pub open spec fn potion_kind_for(name: Seq<char>) -> PotionKind {
    let n = lower_seq(name);
    if contains_seq(n, "extra healing"@) {
        PotionKind::ExtraHealing
    } else if contains_seq(n, "healing"@) {
        PotionKind::Healing
    } else if contains_seq(n, "poison"@) {
        PotionKind::Poison
    } else if contains_seq(n, "gain strength"@) {
        PotionKind::GainStrength
    } else if contains_seq(n, "restore strength"@) {
        PotionKind::RestoreStrength
    } else if contains_seq(n, "see invisible"@) {
        PotionKind::SeeInvisible
    } else if contains_seq(n, "confusion"@) {
        PotionKind::Confusion
    } else if contains_seq(n, "blindness"@) {
        PotionKind::Blindness
    } else if contains_seq(n, "hallucination"@) {
        PotionKind::Hallucination
    } else if contains_seq(n, "haste self"@) {
        PotionKind::HasteSelf
    } else if contains_seq(n, "raise level"@) {
        PotionKind::RaiseLevel
    } else if contains_seq(n, "monster detection"@) {
        PotionKind::MonsterDetection
    } else if contains_seq(n, "magic detection"@) {
        PotionKind::MagicDetection
    } else if contains_seq(n, "levitation"@) {
        PotionKind::Levitation
    } else {
        PotionKind::Unknown
    }
}

pub fn potion_kind_from_name(name: &str) -> (k: PotionKind)
    ensures
        k == potion_kind_for(name@),
{
    let n = lowercase_chars(name);
    if vec_contains(&n, "extra healing") {
        PotionKind::ExtraHealing
    } else if vec_contains(&n, "healing") {
        PotionKind::Healing
    } else if vec_contains(&n, "poison") {
        PotionKind::Poison
    } else if vec_contains(&n, "gain strength") {
        PotionKind::GainStrength
    } else if vec_contains(&n, "restore strength") {
        PotionKind::RestoreStrength
    } else if vec_contains(&n, "see invisible") {
        PotionKind::SeeInvisible
    } else if vec_contains(&n, "confusion") {
        PotionKind::Confusion
    } else if vec_contains(&n, "blindness") {
        PotionKind::Blindness
    } else if vec_contains(&n, "hallucination") {
        PotionKind::Hallucination
    } else if vec_contains(&n, "haste self") {
        PotionKind::HasteSelf
    } else if vec_contains(&n, "raise level") {
        PotionKind::RaiseLevel
    } else if vec_contains(&n, "monster detection") {
        PotionKind::MonsterDetection
    } else if vec_contains(&n, "magic detection") {
        PotionKind::MagicDetection
    } else if vec_contains(&n, "levitation") {
        PotionKind::Levitation
    } else {
        PotionKind::Unknown
    }
}

/// A potion's (lowercased) flavour name `n` speaks of kind `k`.
pub open spec fn potion_word_in(n: Seq<char>, k: PotionKind) -> bool {
    match k {
        PotionKind::ExtraHealing => contains_seq(n, "extra healing"@),
        PotionKind::Healing => contains_seq(n, "healing"@),
        PotionKind::Poison => contains_seq(n, "poison"@),
        PotionKind::GainStrength => contains_seq(n, "gain strength"@),
        PotionKind::RestoreStrength => contains_seq(n, "restore strength"@),
        PotionKind::SeeInvisible => contains_seq(n, "see invisible"@),
        PotionKind::Confusion => contains_seq(n, "confusion"@),
        PotionKind::Blindness => contains_seq(n, "blindness"@),
        PotionKind::Hallucination => contains_seq(n, "hallucination"@),
        PotionKind::HasteSelf => contains_seq(n, "haste self"@),
        PotionKind::RaiseLevel => contains_seq(n, "raise level"@),
        PotionKind::MonsterDetection => contains_seq(n, "monster detection"@),
        PotionKind::MagicDetection => contains_seq(n, "magic detection"@),
        PotionKind::Levitation => contains_seq(n, "levitation"@),
        PotionKind::Unknown => false,
    }
}

/// A potion is only ever given a kind its flavour name speaks of, and a name
/// that speaks of one kind alone gives that kind.
pub proof fn lemma_potion_named(name: Seq<char>, k: PotionKind)
    ensures
        potion_kind_for(name) != PotionKind::Unknown ==> potion_word_in(lower_seq(name), potion_kind_for(name)),
        potion_word_in(lower_seq(name), k) && (forall|k2: PotionKind| k2 != k ==> !#[trigger] potion_word_in(lower_seq(name), k2))
            ==> potion_kind_for(name) == k,
{
    let n = lower_seq(name);
    if potion_word_in(n, k) && (forall|k2: PotionKind| k2 != k ==> !#[trigger] potion_word_in(n, k2)) {
        assert(k != PotionKind::ExtraHealing ==> !potion_word_in(n, PotionKind::ExtraHealing));
        assert(k != PotionKind::Healing ==> !potion_word_in(n, PotionKind::Healing));
        assert(k != PotionKind::Poison ==> !potion_word_in(n, PotionKind::Poison));
        assert(k != PotionKind::GainStrength ==> !potion_word_in(n, PotionKind::GainStrength));
        assert(k != PotionKind::RestoreStrength ==> !potion_word_in(n, PotionKind::RestoreStrength));
        assert(k != PotionKind::SeeInvisible ==> !potion_word_in(n, PotionKind::SeeInvisible));
        assert(k != PotionKind::Confusion ==> !potion_word_in(n, PotionKind::Confusion));
        assert(k != PotionKind::Blindness ==> !potion_word_in(n, PotionKind::Blindness));
        assert(k != PotionKind::Hallucination ==> !potion_word_in(n, PotionKind::Hallucination));
        assert(k != PotionKind::HasteSelf ==> !potion_word_in(n, PotionKind::HasteSelf));
        assert(k != PotionKind::RaiseLevel ==> !potion_word_in(n, PotionKind::RaiseLevel));
        assert(k != PotionKind::MonsterDetection ==> !potion_word_in(n, PotionKind::MonsterDetection));
        assert(k != PotionKind::MagicDetection ==> !potion_word_in(n, PotionKind::MagicDetection));
        assert(k != PotionKind::Levitation ==> !potion_word_in(n, PotionKind::Levitation));
    }
}

/// The effect a wand's flavour name selects.
pub open spec fn wand_kind_for(name: Seq<char>) -> WandKind {
    let n = lower_seq(name);
    if contains_seq(n, "magic missile"@) {
        WandKind::MagicMissile
    } else if contains_seq(n, "slow"@) {
        WandKind::Slow
    } else if contains_seq(n, "fear"@) {
        WandKind::Fear
    } else if contains_seq(n, "confusion"@) {
        WandKind::Confusion
    } else if contains_seq(n, "drain life"@) {
        WandKind::DrainLife
    } else if contains_seq(n, "polymorph"@) {
        WandKind::Polymorph
    } else if contains_seq(n, "haste"@) {
        WandKind::Haste
    } else if contains_seq(n, "teleport"@) {
        WandKind::TeleportAway
    } else if contains_seq(n, "cancellation"@) {
        WandKind::CancellationWand
    } else if contains_seq(n, "nothing"@) {
        WandKind::NothingWand
    } else if contains_seq(n, "lightning"@) {
        WandKind::Lightning
    } else if contains_seq(n, "light"@) {
        WandKind::Light
    } else if contains_seq(n, "fire"@) {
        WandKind::Fire
    } else if contains_seq(n, "cold"@) {
        WandKind::Cold
    } else {
        WandKind::Unknown
    }
}

pub fn wand_kind_from_name(name: &str) -> (k: WandKind)
    ensures
        k == wand_kind_for(name@),
{
    let n = lowercase_chars(name);
    if vec_contains(&n, "magic missile") {
        WandKind::MagicMissile
    } else if vec_contains(&n, "slow") {
        WandKind::Slow
    } else if vec_contains(&n, "fear") {
        WandKind::Fear
    } else if vec_contains(&n, "confusion") {
        WandKind::Confusion
    } else if vec_contains(&n, "drain life") {
        WandKind::DrainLife
    } else if vec_contains(&n, "polymorph") {
        WandKind::Polymorph
    } else if vec_contains(&n, "haste") {
        WandKind::Haste
    } else if vec_contains(&n, "teleport") {
        WandKind::TeleportAway
    } else if vec_contains(&n, "cancellation") {
        WandKind::CancellationWand
    } else if vec_contains(&n, "nothing") {
        WandKind::NothingWand
    } else if vec_contains(&n, "lightning") {
        WandKind::Lightning
    } else if vec_contains(&n, "light") {
        WandKind::Light
    } else if vec_contains(&n, "fire") {
        WandKind::Fire
    } else if vec_contains(&n, "cold") {
        WandKind::Cold
    } else {
        WandKind::Unknown
    }
}

/// The special attack of a monster, by its symbol (classic Rogue mapping).
pub open spec fn special_for(symbol: char) -> MonsterSpecial {
    if symbol == 'L' || symbol == 'N' {
        MonsterSpecial::StealGold
    } else if symbol == 'V' || symbol == 'W' {
        MonsterSpecial::DrainLevel
    } else if symbol == 'S' || symbol == 's' {
        MonsterSpecial::Poison
    } else if symbol == 'P' {
        MonsterSpecial::Paralyze
    } else if symbol == 'M' {
        MonsterSpecial::Confuse
    } else if symbol == 'Q' {
        MonsterSpecial::DrainStrength
    } else {
        MonsterSpecial::Ordinary
    }
}

/// Assign a special attack based on the monster's ASCII symbol (classic Rogue mapping).
pub fn monster_special_from_symbol(symbol: char) -> (s: MonsterSpecial)
    ensures
        s == special_for(symbol),
{
    match symbol {
        'L' => MonsterSpecial::StealGold,
        'N' => MonsterSpecial::StealGold,
        'V' => MonsterSpecial::DrainLevel,
        'W' => MonsterSpecial::DrainLevel,
        'S' | 's' => MonsterSpecial::Poison,
        'P' => MonsterSpecial::Paralyze,
        'M' => MonsterSpecial::Confuse,
        'Q' => MonsterSpecial::DrainStrength,
        _ => MonsterSpecial::Ordinary,
    }
}

/// Each special attack comes from exactly these monsters: the leprechaun and
/// the nymph steal gold, the vampire and the wraith drain levels, the snakes
/// poison, the phantom paralyzes, the medusa confuses and the quasit drains
/// strength; every other monster strikes ordinarily.
pub proof fn lemma_special_attackers(symbol: char)
    ensures
        (special_for(symbol) == MonsterSpecial::StealGold) == (symbol == 'L' || symbol == 'N'),
        (special_for(symbol) == MonsterSpecial::DrainLevel) == (symbol == 'V' || symbol == 'W'),
        (special_for(symbol) == MonsterSpecial::Poison) == (symbol == 'S' || symbol == 's'),
        (special_for(symbol) == MonsterSpecial::Paralyze) == (symbol == 'P'),
        (special_for(symbol) == MonsterSpecial::Confuse) == (symbol == 'M'),
        (special_for(symbol) == MonsterSpecial::DrainStrength) == (symbol == 'Q'),
{
}

/// The word in a wand's flavour name that selects each kind.
pub open spec fn wand_keyword(k: WandKind) -> Seq<char> {
    match k {
        WandKind::MagicMissile => "magic missile"@,
        WandKind::Slow => "slow"@,
        WandKind::Fear => "fear"@,
        WandKind::Confusion => "confusion"@,
        WandKind::DrainLife => "drain life"@,
        WandKind::Polymorph => "polymorph"@,
        WandKind::Haste => "haste"@,
        WandKind::TeleportAway => "teleport"@,
        WandKind::CancellationWand => "cancellation"@,
        WandKind::NothingWand => "nothing"@,
        WandKind::Lightning => "lightning"@,
        WandKind::Light => "light"@,
        WandKind::Fire => "fire"@,
        WandKind::Cold => "cold"@,
        WandKind::Unknown => ""@,
    }
}

/// A wand is only ever given a kind its flavour name speaks of, and a name
/// that speaks of one kind alone gives that kind.
pub proof fn lemma_wand_named(name: Seq<char>, k: WandKind)
    ensures
        wand_kind_for(name) != WandKind::Unknown ==> contains_seq(lower_seq(name), wand_keyword(wand_kind_for(name))),
        k != WandKind::Unknown && contains_seq(lower_seq(name), wand_keyword(k)) && (forall|k2: WandKind|
            k2 != k && k2 != WandKind::Unknown ==> !contains_seq(lower_seq(name), #[trigger] wand_keyword(k2)))
            ==> wand_kind_for(name) == k,
{
    let n = lower_seq(name);
    if k != WandKind::Unknown && contains_seq(n, wand_keyword(k)) && (forall|k2: WandKind|
        k2 != k && k2 != WandKind::Unknown ==> !contains_seq(n, #[trigger] wand_keyword(k2))) {
        assert(k != WandKind::MagicMissile ==> !contains_seq(n, wand_keyword(WandKind::MagicMissile)));
        assert(k != WandKind::Slow ==> !contains_seq(n, wand_keyword(WandKind::Slow)));
        assert(k != WandKind::Fear ==> !contains_seq(n, wand_keyword(WandKind::Fear)));
        assert(k != WandKind::Confusion ==> !contains_seq(n, wand_keyword(WandKind::Confusion)));
        assert(k != WandKind::DrainLife ==> !contains_seq(n, wand_keyword(WandKind::DrainLife)));
        assert(k != WandKind::Polymorph ==> !contains_seq(n, wand_keyword(WandKind::Polymorph)));
        assert(k != WandKind::Haste ==> !contains_seq(n, wand_keyword(WandKind::Haste)));
        assert(k != WandKind::TeleportAway ==> !contains_seq(n, wand_keyword(WandKind::TeleportAway)));
        assert(k != WandKind::CancellationWand ==> !contains_seq(n, wand_keyword(WandKind::CancellationWand)));
        assert(k != WandKind::NothingWand ==> !contains_seq(n, wand_keyword(WandKind::NothingWand)));
        assert(k != WandKind::Lightning ==> !contains_seq(n, wand_keyword(WandKind::Lightning)));
        assert(k != WandKind::Light ==> !contains_seq(n, wand_keyword(WandKind::Light)));
        assert(k != WandKind::Fire ==> !contains_seq(n, wand_keyword(WandKind::Fire)));
        assert(k != WandKind::Cold ==> !contains_seq(n, wand_keyword(WandKind::Cold)));
    }
}

/// The effect a ring's flavour name selects.
pub open spec fn ring_kind_for(name: Seq<char>) -> RingKind {
    let n = lower_seq(name);
    if contains_seq(n, "protection"@) {
        RingKind::Protection
    } else if contains_seq(n, "add strength"@) || contains_seq(n, "strength"@) {
        RingKind::AddStrength
    } else if contains_seq(n, "sustain"@) {
        RingKind::SustainStrength
    } else if contains_seq(n, "searching"@) || contains_seq(n, "search"@) {
        RingKind::Searching
    } else if contains_seq(n, "see invis"@) {
        RingKind::SeeInvisible
    } else if contains_seq(n, "adornment"@) {
        RingKind::Adornment
    } else if contains_seq(n, "aggravate"@) {
        RingKind::AggravateMonster
    } else if contains_seq(n, "dexterity"@) {
        RingKind::Dexterity
    } else if contains_seq(n, "increase damage"@) || contains_seq(n, "damage"@) {
        RingKind::IncreaseDamage
    } else if contains_seq(n, "regeneration"@) || contains_seq(n, "regen"@) {
        RingKind::Regeneration
    } else if contains_seq(n, "slow digestion"@) || contains_seq(n, "digestion"@) {
        RingKind::SlowDigestion
    } else if contains_seq(n, "teleport"@) {
        RingKind::Teleportation
    } else if contains_seq(n, "stealth"@) {
        RingKind::Stealth
    } else if contains_seq(n, "maintain armor"@) || contains_seq(n, "maintain"@) {
        RingKind::MaintainArmor
    } else {
        RingKind::Unknown
    }
}

pub fn ring_kind_from_name(name: &str) -> (k: RingKind)
    ensures
        k == ring_kind_for(name@),
{
    let n = lowercase_chars(name);
    if vec_contains(&n, "protection") {
        RingKind::Protection
    } else if vec_contains(&n, "add strength") || vec_contains(&n, "strength") {
        RingKind::AddStrength
    } else if vec_contains(&n, "sustain") {
        RingKind::SustainStrength
    } else if vec_contains(&n, "searching") || vec_contains(&n, "search") {
        RingKind::Searching
    } else if vec_contains(&n, "see invis") {
        RingKind::SeeInvisible
    } else if vec_contains(&n, "adornment") {
        RingKind::Adornment
    } else if vec_contains(&n, "aggravate") {
        RingKind::AggravateMonster
    } else if vec_contains(&n, "dexterity") {
        RingKind::Dexterity
    } else if vec_contains(&n, "increase damage") || vec_contains(&n, "damage") {
        RingKind::IncreaseDamage
    } else if vec_contains(&n, "regeneration") || vec_contains(&n, "regen") {
        RingKind::Regeneration
    } else if vec_contains(&n, "slow digestion") || vec_contains(&n, "digestion") {
        RingKind::SlowDigestion
    } else if vec_contains(&n, "teleport") {
        RingKind::Teleportation
    } else if vec_contains(&n, "stealth") {
        RingKind::Stealth
    } else if vec_contains(&n, "maintain armor") || vec_contains(&n, "maintain") {
        RingKind::MaintainArmor
    } else {
        RingKind::Unknown
    }
}

/// A ring's (lowercased) flavour name `n` speaks of kind `k`.
pub open spec fn ring_word_in(n: Seq<char>, k: RingKind) -> bool {
    match k {
        RingKind::Protection => contains_seq(n, "protection"@),
        RingKind::AddStrength => contains_seq(n, "add strength"@) || contains_seq(n, "strength"@),
        RingKind::SustainStrength => contains_seq(n, "sustain"@),
        RingKind::Searching => contains_seq(n, "searching"@) || contains_seq(n, "search"@),
        RingKind::SeeInvisible => contains_seq(n, "see invis"@),
        RingKind::Adornment => contains_seq(n, "adornment"@),
        RingKind::AggravateMonster => contains_seq(n, "aggravate"@),
        RingKind::Dexterity => contains_seq(n, "dexterity"@),
        RingKind::IncreaseDamage => contains_seq(n, "increase damage"@) || contains_seq(n, "damage"@),
        RingKind::Regeneration => contains_seq(n, "regeneration"@) || contains_seq(n, "regen"@),
        RingKind::SlowDigestion => contains_seq(n, "slow digestion"@) || contains_seq(n, "digestion"@),
        RingKind::Teleportation => contains_seq(n, "teleport"@),
        RingKind::Stealth => contains_seq(n, "stealth"@),
        RingKind::MaintainArmor => contains_seq(n, "maintain armor"@) || contains_seq(n, "maintain"@),
        RingKind::Unknown => false,
    }
}

/// A ring is only ever given a kind its flavour name speaks of, and a name
/// that speaks of one kind alone gives that kind.
pub proof fn lemma_ring_named(name: Seq<char>, k: RingKind)
    ensures
        ring_kind_for(name) != RingKind::Unknown ==> ring_word_in(lower_seq(name), ring_kind_for(name)),
        ring_word_in(lower_seq(name), k) && (forall|k2: RingKind| k2 != k ==> !#[trigger] ring_word_in(lower_seq(name), k2))
            ==> ring_kind_for(name) == k,
{
    let n = lower_seq(name);
    if ring_word_in(n, k) && (forall|k2: RingKind| k2 != k ==> !#[trigger] ring_word_in(n, k2)) {
        assert(k != RingKind::Protection ==> !ring_word_in(n, RingKind::Protection));
        assert(k != RingKind::AddStrength ==> !ring_word_in(n, RingKind::AddStrength));
        assert(k != RingKind::SustainStrength ==> !ring_word_in(n, RingKind::SustainStrength));
        assert(k != RingKind::Searching ==> !ring_word_in(n, RingKind::Searching));
        assert(k != RingKind::SeeInvisible ==> !ring_word_in(n, RingKind::SeeInvisible));
        assert(k != RingKind::Adornment ==> !ring_word_in(n, RingKind::Adornment));
        assert(k != RingKind::AggravateMonster ==> !ring_word_in(n, RingKind::AggravateMonster));
        assert(k != RingKind::Dexterity ==> !ring_word_in(n, RingKind::Dexterity));
        assert(k != RingKind::IncreaseDamage ==> !ring_word_in(n, RingKind::IncreaseDamage));
        assert(k != RingKind::Regeneration ==> !ring_word_in(n, RingKind::Regeneration));
        assert(k != RingKind::SlowDigestion ==> !ring_word_in(n, RingKind::SlowDigestion));
        assert(k != RingKind::Teleportation ==> !ring_word_in(n, RingKind::Teleportation));
        assert(k != RingKind::Stealth ==> !ring_word_in(n, RingKind::Stealth));
        assert(k != RingKind::MaintainArmor ==> !ring_word_in(n, RingKind::MaintainArmor));
    }
}

/// The display name suffix of a ring kind.
pub open spec fn ring_label(kind: RingKind) -> Seq<char> {
    match kind {
        RingKind::Protection => "protection"@,
        RingKind::AddStrength => "add strength"@,
        RingKind::SustainStrength => "sustain strength"@,
        RingKind::Searching => "searching"@,
        RingKind::SeeInvisible => "see invisible"@,
        RingKind::Adornment => "adornment"@,
        RingKind::AggravateMonster => "aggravate monster"@,
        RingKind::Dexterity => "dexterity"@,
        RingKind::IncreaseDamage => "increase damage"@,
        RingKind::Regeneration => "regeneration"@,
        RingKind::SlowDigestion => "slow digestion"@,
        RingKind::Teleportation => "teleportation"@,
        RingKind::Stealth => "stealth"@,
        RingKind::MaintainArmor => "maintain armor"@,
        RingKind::Unknown => "unknown"@,
    }
}

/// Returns the display name suffix for a ring kind (matches the item table's names).
pub fn ring_name(kind: RingKind) -> (s: &'static str)
    ensures
        s@ == ring_label(kind),
{
    match kind {
        RingKind::Protection => "protection",
        RingKind::AddStrength => "add strength",
        RingKind::SustainStrength => "sustain strength",
        RingKind::Searching => "searching",
        RingKind::SeeInvisible => "see invisible",
        RingKind::Adornment => "adornment",
        RingKind::AggravateMonster => "aggravate monster",
        RingKind::Dexterity => "dexterity",
        RingKind::IncreaseDamage => "increase damage",
        RingKind::Regeneration => "regeneration",
        RingKind::SlowDigestion => "slow digestion",
        RingKind::Teleportation => "teleportation",
        RingKind::Stealth => "stealth",
        RingKind::MaintainArmor => "maintain armor",
        RingKind::Unknown => "unknown",
    }
}

/// Sum of the category weights.
pub open spec fn category_total(cats: Seq<CategoryProb>) -> int
    decreases cats.len(),
{
    if cats.len() == 0 {
        0
    } else {
        category_total(cats.drop_last()) + cats.last().prob
    }
}

/// The range the category roll is drawn from.
pub open spec fn category_bound(cats: Seq<CategoryProb>) -> int {
    if category_total(cats) >= 1 { category_total(cats) } else { 1 }
}

/// The category a roll lands on; food when it runs off the table.
pub open spec fn category_by_roll(cats: Seq<CategoryProb>, roll: int) -> ItemCategory
    decreases cats.len(),
{
    if cats.len() == 0 {
        ItemCategory::Food
    } else if roll < cats[0].prob {
        cats[0].category
    } else {
        category_by_roll(cats.drop_first(), roll - cats[0].prob)
    }
}

/// The category sums and remainders stay inside `i32`.
pub open spec fn categories_fit(cats: Seq<CategoryProb>) -> bool {
    forall|k: int|
        0 <= k <= cats.len() ==> {
            let p = #[trigger] category_total(cats.take(k));
            &&& i32::MIN <= p <= i32::MAX
            &&& i32::MIN <= -p
            &&& category_bound(cats) - 1 - p <= i32::MAX
        }
}

proof fn lemma_category_total_step(cats: Seq<CategoryProb>, i: int)
    requires
        0 <= i < cats.len(),
    ensures
        category_total(cats.take(i + 1)) == category_total(cats.take(i)) + cats[i].prob,
{
    assert(cats.take(i + 1).drop_last() =~= cats.take(i));
}

/// The item tables can be rolled on: every table a category can send the roll
/// to has weights that fit, and the weapon and armor lists are non-empty where
/// their category appears.
pub open spec fn tables_rollable(t: &ItemTables) -> bool {
    &&& categories_fit(t.categories@)
    &&& weights_fit(t.potions@)
    &&& weights_fit(t.scrolls@)
    &&& weights_fit(t.rings@)
    &&& weights_fit(t.sticks@)
    &&& t.weapons@.len() <= i32::MAX
    &&& t.armor@.len() <= i32::MAX
    &&& (exists|i: int| 0 <= i < t.categories@.len() && t.categories@[i].category == ItemCategory::Weapon) ==> t.weapons@.len() > 0
    &&& (exists|i: int| 0 <= i < t.categories@.len() && t.categories@[i].category == ItemCategory::Armor) ==> t.armor@.len() > 0
}

/// A roll that runs through the category table lands on a listed category or on food.
proof fn lemma_category_listed(cats: Seq<CategoryProb>, roll: int)
    ensures
        category_by_roll(cats, roll) == ItemCategory::Food
            || exists|i: int| 0 <= i < cats.len() && cats[i].category == category_by_roll(cats, roll),
    decreases cats.len(),
{
    if cats.len() > 0 && !(roll < cats[0].prob) {
        let t = cats.drop_first();
        lemma_category_listed(t, roll - cats[0].prob);
        if category_by_roll(t, roll - cats[0].prob) != ItemCategory::Food {
            let i = choose|i: int| 0 <= i < t.len() && t[i].category == category_by_roll(t, roll - cats[0].prob);
            assert(cats[i + 1] == t[i]);
        }
    }
}

/// Draw the roll that picks a category: `rnd(total)`.
fn category_roll<R: RogueRng>(cats: &Vec<CategoryProb>, rng: &mut R) -> (r: i32)
    requires
        categories_fit(cats@),
    ensures
        rnd_outcome(category_bound(cats@), r as int),
        0 <= r < category_bound(cats@),
{
    let mut total: i32 = 0;
    let mut k: usize = 0;
    while k < cats.len()
        invariant
            k <= cats@.len(),
            categories_fit(cats@),
            total == category_total(cats@.take(k as int)),
        decreases cats@.len() - k,
    {
        proof {
            lemma_category_total_step(cats@, k as int);
            assert(0 <= k + 1 <= cats@.len());
            let p = category_total(cats@.take(k + 1));
        }
        total = total + cats[k].prob;
        k = k + 1;
    }
    assert(cats@.take(cats@.len() as int) =~= cats@);
    let bound = if total > 1 { total } else { 1 };
    rng.rnd(bound)
}

/// The category that the roll `r` (drawn from `0..category_bound`) lands on.
pub fn category_for_roll(cats: &Vec<CategoryProb>, r: i32) -> (c: ItemCategory)
    requires
        categories_fit(cats@),
        0 <= r < category_bound(cats@),
    ensures
        c == category_by_roll(cats@, r as int),
{
    assert(cats@.skip(0) =~= cats@);
    let mut roll: i32 = r;
    let mut i: usize = 0;
    while i < cats.len()
        invariant
            i <= cats@.len(),
            categories_fit(cats@),
            0 <= r < category_bound(cats@),
            roll == r - category_total(cats@.take(i as int)),
            category_by_roll(cats@, r as int) == category_by_roll(cats@.skip(i as int), roll as int),
        decreases cats@.len() - i,
    {
        let ghost rest = cats@.skip(i as int);
        assert(rest[0] == cats@[i as int]);
        if roll < cats[i].prob {
            return cats[i].category;
        }
        proof {
            assert(rest.drop_first() =~= cats@.skip(i + 1));
            lemma_category_total_step(cats@, i as int);
            assert(0 <= i + 1 <= cats@.len());
            let p = category_total(cats@.take(i + 1));
        }
        roll = roll - cats[i].prob;
        i = i + 1;
    }
    assert(cats@.skip(i as int).len() == 0);
    ItemCategory::Food
}

/// `"{prefix}{name}"` as a fresh string.
fn prefixed(prefix: &str, name: &String) -> (s: String)
    ensures
        s@ == prefix@ + name@,
{
    let mut s = String::from_str(prefix);
    push_str(&mut s, name.as_str());
    s
}

/// A term-for-term copy of a damage roll.
pub(crate) fn copy_damage(d: &DamageRoll) -> (r: DamageRoll)
    ensures
        r.0@ == d.0@,
{
    let mut v: Vec<Dice> = Vec::new();
    let mut i: usize = 0;
    while i < d.0.len()
        invariant
            i <= d.0@.len(),
            v@ == d.0@.take(i as int),
        decreases d.0@.len() - i,
    {
        v.push(d.0[i]);
        i = i + 1;
        assert(v@ =~= d.0@.take(i as int));
    }
    assert(d.0@.take(d.0@.len() as int) =~= d.0@);
    DamageRoll(v)
}

/// What a roll of the item tables may give for a category.
pub open spec fn item_of_category(t: &ItemTables, cat: ItemCategory, item: Item) -> bool {
    match cat {
        ItemCategory::Food => item.name@ == "food ration"@ && item.kind == ItemKind::Food,
        ItemCategory::Potion => exists|r: int| #![trigger picked_name(t.potions@, r)] {
            let p = picked_name(t.potions@, r);
            &&& rnd_outcome(roll_bound(t.potions@), r)
            &&& item.name@ == "potion of "@ + p
            &&& item.kind == ItemKind::Potion(potion_kind_for(p))
        },
        ItemCategory::Weapon => exists|i: int| #![trigger t.weapons@[i]] {
            &&& 0 <= i < t.weapons@.len()
            &&& item.name@ == t.weapons@[i].name@
            &&& item.kind matches ItemKind::Weapon { damage, hit_plus, dam_plus }
            &&& damage.0@ == t.weapons@[i].damage.0@
            &&& hit_plus == 0
            &&& dam_plus == 0
        },
        ItemCategory::Armor => exists|i: int| #![trigger t.armor@[i]] {
            &&& 0 <= i < t.armor@.len()
            &&& item.name@ == t.armor@[i].name@
            &&& item.kind == ItemKind::Armor(t.armor@[i].base_ac)
        },
        ItemCategory::Scroll => exists|r: int| #![trigger picked_name(t.scrolls@, r)] {
            let p = picked_name(t.scrolls@, r);
            &&& rnd_outcome(roll_bound(t.scrolls@), r)
            &&& item.name@ == "scroll of "@ + p
            &&& item.kind == ItemKind::Scroll(scroll_kind_for(p))
        },
        ItemCategory::Ring => exists|r: int| #![trigger picked_name(t.rings@, r)] {
            let p = picked_name(t.rings@, r);
            &&& rnd_outcome(roll_bound(t.rings@), r)
            &&& item.name@ == "ring of "@ + p
            &&& item.kind == ItemKind::Ring(ring_kind_for(p))
        },
        ItemCategory::Stick => exists|r: int| #![trigger picked_name(t.sticks@, r)] {
            let p = picked_name(t.sticks@, r);
            &&& rnd_outcome(roll_bound(t.sticks@), r)
            &&& item.name@ == "wand of "@ + p
            &&& item.kind matches ItemKind::Wand { kind, charges }
            &&& kind == wand_kind_for(p)
            &&& 3 <= charges < 9
        },
    }
}

/// The range the item roll of category `cat` is drawn from: the weighted
/// total of a named table, the number of weapons or armors (nothing for food).
pub open spec fn item_roll_bound(t: &ItemTables, cat: ItemCategory) -> int {
    match cat {
        ItemCategory::Food => 0,
        ItemCategory::Potion => roll_bound(t.potions@),
        ItemCategory::Weapon => t.weapons@.len() as int,
        ItemCategory::Armor => t.armor@.len() as int,
        ItemCategory::Scroll => roll_bound(t.scrolls@),
        ItemCategory::Ring => roll_bound(t.rings@),
        ItemCategory::Stick => roll_bound(t.sticks@),
    }
}

/// `r1` and `r2` are rolls an item of `cat` can be made from: `r1` picks the
/// item (none for food), `r2` adds a wand's charges (none otherwise).
pub open spec fn item_rolls_ok(t: &ItemTables, cat: ItemCategory, r1: int, r2: int) -> bool {
    &&& (cat == ItemCategory::Food ==> r1 == 0)
    &&& (cat != ItemCategory::Food ==> rnd_outcome(item_roll_bound(t, cat), r1))
    &&& (cat == ItemCategory::Stick ==> rnd_outcome(6, r2))
    &&& (cat != ItemCategory::Stick ==> r2 == 0)
}

/// The item of category `cat` that the rolls `r1` (the pick) and `r2` (a
/// wand's extra charges) make.
pub open spec fn item_by_rolls(t: &ItemTables, cat: ItemCategory, r1: int, r2: int, item: Item) -> bool {
    match cat {
        ItemCategory::Food => item.name@ == "food ration"@ && item.kind == ItemKind::Food,
        ItemCategory::Potion => {
            let p = picked_name(t.potions@, r1);
            item.name@ == "potion of "@ + p && item.kind == ItemKind::Potion(potion_kind_for(p))
        },
        ItemCategory::Weapon => {
            &&& item.name@ == t.weapons@[r1].name@
            &&& item.kind matches ItemKind::Weapon { damage, hit_plus, dam_plus }
            &&& damage.0@ == t.weapons@[r1].damage.0@
            &&& hit_plus == 0
            &&& dam_plus == 0
        },
        ItemCategory::Armor => item.name@ == t.armor@[r1].name@ && item.kind == ItemKind::Armor(t.armor@[r1].base_ac),
        ItemCategory::Scroll => {
            let p = picked_name(t.scrolls@, r1);
            item.name@ == "scroll of "@ + p && item.kind == ItemKind::Scroll(scroll_kind_for(p))
        },
        ItemCategory::Ring => {
            let p = picked_name(t.rings@, r1);
            item.name@ == "ring of "@ + p && item.kind == ItemKind::Ring(ring_kind_for(p))
        },
        ItemCategory::Stick => {
            let p = picked_name(t.sticks@, r1);
            &&& item.name@ == "wand of "@ + p
            &&& item.kind == ItemKind::Wand { kind: wand_kind_for(p), charges: (r2 + 3) as i32 }
        },
    }
}

/// The item of category `cat` made from the rolls `r1` and `r2`.
pub fn item_for_rolls(tables: &ItemTables, cat: ItemCategory, r1: i32, r2: i32) -> (item: Item)
    requires
        tables_rollable(tables),
        item_rolls_ok(tables, cat, r1 as int, r2 as int),
        cat == ItemCategory::Weapon ==> tables.weapons@.len() > 0,
        cat == ItemCategory::Armor ==> tables.armor@.len() > 0,
    ensures
        item_by_rolls(tables, cat, r1 as int, r2 as int, item),
        item_of_category(tables, cat, item),
{
    let item = match cat {
        ItemCategory::Food => Item { name: String::from_str("food ration"), kind: ItemKind::Food },
        ItemCategory::Potion => {
            let p = named_for_roll(tables.potions.as_slice(), r1);
            let kind = ItemKind::Potion(potion_kind_from_name(p.as_str()));
            Item { name: prefixed("potion of ", &p), kind }
        },
        ItemCategory::Weapon => {
            let w = &tables.weapons[r1 as usize];
            Item {
                name: w.name.clone(),
                kind: ItemKind::Weapon { damage: copy_damage(&w.damage), hit_plus: 0, dam_plus: 0 },
            }
        },
        ItemCategory::Armor => {
            let a = &tables.armor[r1 as usize];
            Item { name: a.name.clone(), kind: ItemKind::Armor(a.base_ac) }
        },
        ItemCategory::Scroll => {
            let p = named_for_roll(tables.scrolls.as_slice(), r1);
            let kind = scroll_kind_from_name(p.as_str());
            Item { name: prefixed("scroll of ", &p), kind: ItemKind::Scroll(kind) }
        },
        ItemCategory::Ring => {
            let p = named_for_roll(tables.rings.as_slice(), r1);
            let kind = ring_kind_from_name(p.as_str());
            Item { name: prefixed("ring of ", &p), kind: ItemKind::Ring(kind) }
        },
        ItemCategory::Stick => {
            let p = named_for_roll(tables.sticks.as_slice(), r1);
            let charges = r2 + 3;
            Item { name: prefixed("wand of ", &p), kind: ItemKind::Wand { kind: wand_kind_from_name(p.as_str()), charges } }
        },
    };
    proof {
        match cat {
            ItemCategory::Weapon => {
                assert(tables.weapons@[r1 as int] == tables.weapons@[r1 as int]);
            },
            ItemCategory::Armor => {
                assert(tables.armor@[r1 as int] == tables.armor@[r1 as int]);
            },
            _ => {},
        }
    }
    item
}

/// Roll a random floor item: a category by weight, then an item of it (see
/// `item_for_rolls`).
pub fn roll_item<R: RogueRng>(tables: &ItemTables, rng: &mut R) -> (item: Item)
    requires
        tables_rollable(tables),
    ensures
        exists|roll: int|
            rnd_outcome(category_bound(tables.categories@), roll)
                && item_of_category(tables, category_by_roll(tables.categories@, roll), item),
        exists|c: int, r1: int, r2: int|
            #![trigger category_by_roll(tables.categories@, c), item_by_rolls(tables, category_by_roll(tables.categories@, c), r1, r2, item)]
            rnd_outcome(category_bound(tables.categories@), c) && item_rolls_ok(
                tables,
                category_by_roll(tables.categories@, c),
                r1,
                r2,
            ) && item_by_rolls(tables, category_by_roll(tables.categories@, c), r1, r2, item),
{
    let c = category_roll(&tables.categories, rng);
    let chosen = category_for_roll(&tables.categories, c);
    proof {
        lemma_category_listed(tables.categories@, c as int);
    }
    let r1: i32 = match chosen {
        ItemCategory::Food => 0,
        ItemCategory::Potion => named_roll(tables.potions.as_slice(), rng),
        ItemCategory::Weapon => rng.rnd(tables.weapons.len() as i32),
        ItemCategory::Armor => rng.rnd(tables.armor.len() as i32),
        ItemCategory::Scroll => named_roll(tables.scrolls.as_slice(), rng),
        ItemCategory::Ring => named_roll(tables.rings.as_slice(), rng),
        ItemCategory::Stick => named_roll(tables.sticks.as_slice(), rng),
    };
    let r2: i32 = match chosen {
        ItemCategory::Stick => rng.rnd(6),
        _ => 0,
    };
    let item = item_for_rolls(tables, chosen, r1, r2);
    assert(item_by_rolls(tables, category_by_roll(tables.categories@, c as int), r1 as int, r2 as int, item));
    item
}

} // verus!
