//! The player's pack: eating, picking things up, wielding and wearing, and
//! putting rings on and taking them off.

use vstd::prelude::*;
use crate::cli::components::{Item, ItemKind, PotionKind, RingKind, ScrollKind, Stats, StatusEffects};
use crate::cli::items::{ring_label, ring_name};
use crate::cli::rules::{
    apply_potion, free_hand, healed, landing_ok, potion_applied, potion_roll_ok, ring_to_remove, status_fits, teleport_target, Hand,
};
use crate::geometry::Point;
use crate::map::LevelMap;
use crate::rng::RogueRng;
use crate::cli::wands::{say, text1, text3, texts};
use crate::data::Config;
use crate::dice::DamageRoll;
use crate::text::push_str;

verus! {

/// `i` is the first item of the pack that `pick` picks out.
pub open spec fn first_of(inv: Seq<Item>, pick: spec_fn(ItemKind) -> bool, i: int) -> bool {
    &&& 0 <= i < inv.len()
    &&& pick(inv[i].kind)
    &&& forall|j: int| 0 <= j < i ==> !pick(#[trigger] inv[j].kind)
}

/// No item of the pack is picked out by `pick`.
pub open spec fn none_of(inv: Seq<Item>, pick: spec_fn(ItemKind) -> bool) -> bool {
    forall|j: int| 0 <= j < inv.len() ==> !pick(#[trigger] inv[j].kind)
}

/// Food.
pub open spec fn is_food() -> spec_fn(ItemKind) -> bool {
    |k: ItemKind| k is Food
}

/// Rings.
pub open spec fn is_ring() -> spec_fn(ItemKind) -> bool {
    |k: ItemKind| k is Ring
}

/// The index of the first food in the pack.
fn find_food(inv: &Vec<Item>) -> (r: Option<usize>)
    ensures
        match r {
            Some(i) => first_of(inv@, is_food(), i as int),
            None => none_of(inv@, is_food()),
        },
{
    let mut i: usize = 0;
    while i < inv.len()
        invariant
            i <= inv@.len(),
            forall|j: int| 0 <= j < i ==> !(is_food())(#[trigger] inv@[j].kind),
        decreases inv@.len() - i,
    {
        match inv[i].kind {
            ItemKind::Food => {
                return Some(i);
            },
            _ => {},
        }
        i = i + 1;
    }
    None
}

/// The index of the first ring in the pack.
fn find_ring(inv: &Vec<Item>) -> (r: Option<usize>)
    ensures
        match r {
            Some(i) => first_of(inv@, is_ring(), i as int),
            None => none_of(inv@, is_ring()),
        },
{
    let mut i: usize = 0;
    while i < inv.len()
        invariant
            i <= inv@.len(),
            forall|j: int| 0 <= j < i ==> !(is_ring())(#[trigger] inv@[j].kind),
        decreases inv@.len() - i,
    {
        match inv[i].kind {
            ItemKind::Ring(_) => {
                return Some(i);
            },
            _ => {},
        }
        i = i + 1;
    }
    None
}

/// Eat the first food in the pack: the food clock rises by a ration's worth,
/// up to what the stomach holds.
pub fn eat(inventory: &mut Vec<Item>, food: &mut i32, cfg: &Config, log: &mut Vec<String>) -> (acted: bool)
    requires
        *old(food) + cfg.hunger_time <= i32::MAX,
        *old(food) + cfg.hunger_time >= i32::MIN,
    ensures
        none_of(old(inventory)@, is_food()) ==> !acted && final(inventory)@ == old(inventory)@ && *final(food)
            == *old(food) && texts(final(log)@) == texts(old(log)@).push("You have no food."@),
        forall|i: int| #[trigger] first_of(old(inventory)@, is_food(), i) ==> {
            &&& acted
            &&& final(inventory)@ == old(inventory)@.remove(i)
            &&& *final(food) == if cfg.stomach_size <= *old(food) + cfg.hunger_time {
                cfg.stomach_size as int
            } else {
                *old(food) + cfg.hunger_time
            }
            &&& texts(final(log)@) == texts(old(log)@).push("You eat the food ration. That hit the spot!"@)
        },
{
    match find_food(inventory) {
        Some(i) => {
            inventory.remove(i);
            let full = *food + cfg.hunger_time;
            *food = if cfg.stomach_size <= full { cfg.stomach_size } else { full };
            say(log, text1("You eat the food ration. That hit the spot!"));
            true
        },
        None => {
            say(log, text1("You have no food."));
            false
        },
    }
}

/// What picking up the item on the player's tile came to.
#[derive(Debug, Clone, Copy, PartialEq, Eq, Structural)]
pub enum PickedUp {
    /// There was nothing to pick up.
    Nothing,
    /// The Amulet of Yendor: the game is won.
    Won,
    /// The item was taken (wielded, worn or packed).
    Taken,
}

/// The player after wielding a weapon of `damage`, `hit_plus`, `dam_plus`.
pub open spec fn wielding(p: Stats, damage: DamageRoll, hit_plus: i32, dam_plus: i32) -> Stats {
    Stats { damage, hit_plus, dam_plus, ..p }
}

/// Pick up the item lying on the player's tile (if any): the Amulet wins the
/// game; a weapon is wielded at once; armor is worn when it betters the
/// player's armor (lower is better); anything else goes into the pack.
pub fn pickup(item: Option<Item>, inventory: &mut Vec<Item>, player: &mut Stats, log: &mut Vec<String>) -> (r: PickedUp)
    ensures
        match item {
            None => r == PickedUp::Nothing && final(inventory)@ == old(inventory)@ && *final(player) == *old(player)
                && texts(final(log)@) == texts(old(log)@).push("There is nothing here to pick up."@),
            Some(it) => {
                let log0 = texts(old(log)@);
                let log1 = texts(final(log)@);
                let picked = log0.push("You pick up "@ + it.name@ + "."@);
                match it.kind {
                    ItemKind::Amulet => r == PickedUp::Won && final(inventory)@ == old(inventory)@ && *final(player)
                        == *old(player) && log1 == log0.push("You have recovered the Amulet of Yendor! YOU WIN!"@),
                    ItemKind::Weapon { damage, hit_plus, dam_plus } => {
                        &&& r == PickedUp::Taken
                        &&& final(inventory)@ == old(inventory)@
                        &&& *final(player) == wielding(*old(player), damage, hit_plus, dam_plus)
                        &&& log1 == picked.push("You wield the "@ + it.name@ + "."@)
                    },
                    ItemKind::Armor(ac) => {
                        &&& r == PickedUp::Taken
                        &&& final(inventory)@ == old(inventory)@
                        &&& if ac < old(player).armor {
                            *final(player) == (Stats { armor: ac, ..*old(player) }) && log1 == picked.push(
                                "You don the "@ + it.name@ + "."@)
                        } else {
                            *final(player) == *old(player) && log1 == picked.push("You don the "@ + it.name@
                                + " (no better than your current armor)."@)
                        }
                    },
                    _ => r == PickedUp::Taken && final(inventory)@ == old(inventory)@.push(it) && *final(player)
                        == *old(player) && log1 == picked,
                }
            },
        },
{
    match item {
        None => {
            say(log, text1("There is nothing here to pick up."));
            PickedUp::Nothing
        },
        Some(it) => {
            match it.kind {
                ItemKind::Amulet => {
                    say(log, text1("You have recovered the Amulet of Yendor! YOU WIN!"));
                    return PickedUp::Won;
                },
                _ => {},
            }
            say(log, text3("You pick up ", &it.name, "."));
            let Item { name, kind } = it;
            match kind {
                ItemKind::Weapon { damage, hit_plus, dam_plus } => {
                    player.damage = damage;
                    player.hit_plus = hit_plus;
                    player.dam_plus = dam_plus;
                    say(log, text3("You wield the ", &name, "."));
                },
                ItemKind::Armor(ac) => {
                    if ac < player.armor {
                        player.armor = ac;
                        say(log, text3("You don the ", &name, "."));
                    } else {
                        say(log, text3("You don the ", &name, " (no better than your current armor)."));
                    }
                },
                other => {
                    inventory.push(Item { name, kind: other });
                },
            }
            PickedUp::Taken
        },
    }
}

/// The message of taking off a ring of `kind` from `hand`.
pub open spec fn removed_text(kind: RingKind, hand: Hand) -> Seq<char> {
    "You remove the ring of "@ + ring_label(kind) + " ("@ + (if hand == Hand::Left { "left"@ } else { "right"@ })
        + " hand)."@
}

/// Take off a ring (the left one first) and put it back in the pack.
pub fn remove_ring(
    inventory: &mut Vec<Item>,
    left: &mut Option<RingKind>,
    right: &mut Option<RingKind>,
    log: &mut Vec<String>,
) -> (acted: bool)
    ensures
        match (*old(left), *old(right)) {
            (None, None) => !acted && final(inventory)@ == old(inventory)@ && *final(left) == *old(left) && *final(right)
                == *old(right) && texts(final(log)@) == texts(old(log)@).push("You are not wearing any rings."@),
            _ => {
                let (hand, kind) = if (*old(left)) is Some { (Hand::Left, (*old(left))->0) } else { (Hand::Right, (*old(right))->0) };
                &&& acted
                &&& hand == Hand::Left ==> *final(left) == None::<RingKind> && *final(right) == *old(right)
                &&& hand == Hand::Right ==> *final(right) == None::<RingKind> && *final(left) == *old(left)
                &&& final(inventory)@.len() == old(inventory)@.len() + 1
                &&& final(inventory)@.drop_last() == old(inventory)@
                &&& final(inventory)@.last().name@ == "ring of "@ + ring_label(kind)
                &&& final(inventory)@.last().kind == ItemKind::Ring(kind)
                &&& texts(final(log)@) == texts(old(log)@).push(removed_text(kind, hand))
            },
        },
{
    match ring_to_remove(*left, *right) {
        None => {
            say(log, text1("You are not wearing any rings."));
            false
        },
        Some((hand, kind)) => {
            match hand {
                Hand::Left => {
                    *left = None;
                },
                Hand::Right => {
                    *right = None;
                },
            }
            let name = ring_name(kind);
            let mut msg = text1("You remove the ring of ");
            push_str(&mut msg, name);
            push_str(&mut msg, " (");
            match hand {
                Hand::Left => push_str(&mut msg, "left"),
                Hand::Right => push_str(&mut msg, "right"),
            }
            push_str(&mut msg, " hand).");
            say(log, msg);
            let mut label = text1("ring of ");
            push_str(&mut label, name);
            let ghost before = inventory@;
            inventory.push(Item { name: label, kind: ItemKind::Ring(kind) });
            assert(inventory@.drop_last() =~= before);
            true
        },
    }
}

/// What putting on a ring of `kind` says (after the ring is on).
pub open spec fn equip_texts(kind: RingKind, awoken: int) -> Seq<Seq<char>> {
    match kind {
        RingKind::AggravateMonster => seq![aggravate_text(awoken), "The ring pulses with malevolent energy!"@],
        RingKind::Teleportation => seq!["The ring crackles with unstable energy..."@],
        RingKind::Searching => seq!["Your senses sharpen."@],
        RingKind::SlowDigestion => seq!["You feel your metabolism slow."@],
        RingKind::Regeneration => seq!["You feel a surge of vitality."@],
        RingKind::SustainStrength => seq!["Your muscles feel fortified."@],
        RingKind::SeeInvisible => seq!["The world looks slightly different..."@],
        _ => seq![],
    }
}

/// The message of waking `n` monsters.
pub open spec fn aggravate_text(n: int) -> Seq<char> {
    "A high-pitched humming wakes "@ + crate::text::int_text(n) + " monsters!"@
}

/// Wake every monster (`awake` holds each monster's flag) and say how many.
pub fn aggravate(awake: &mut Vec<bool>, log: &mut Vec<String>)
    requires
        old(awake)@.len() <= i32::MAX,
    ensures
        final(awake)@.len() == old(awake)@.len(),
        forall|i: int| 0 <= i < final(awake)@.len() ==> #[trigger] final(awake)@[i],
        texts(final(log)@) == texts(old(log)@).push(aggravate_text(old(awake)@.len() as int)),
{
    let mut i: usize = 0;
    while i < awake.len()
        invariant
            i <= awake@.len(),
            awake@.len() == old(awake)@.len(),
            forall|j: int| 0 <= j < i ==> #[trigger] awake@[j],
        decreases awake@.len() - i,
    {
        awake.set(i, true);
        i = i + 1;
    }
    let mut msg = text1("A high-pitched humming wakes ");
    crate::text::push_int(&mut msg, awake.len() as i64);
    push_str(&mut msg, " monsters!");
    say(log, msg);
}

/// Put on the first ring of the pack, on the left hand if free, else the
/// right; with both hands taken, or no ring, nothing happens. A ring of
/// aggravate monster wakes every monster.
pub fn put_on_ring(
    inventory: &mut Vec<Item>,
    left: &mut Option<RingKind>,
    right: &mut Option<RingKind>,
    awake: &mut Vec<bool>,
    log: &mut Vec<String>,
) -> (acted: bool)
    requires
        old(awake)@.len() <= i32::MAX,
    ensures
        none_of(old(inventory)@, is_ring()) ==> !acted && final(inventory)@ == old(inventory)@ && *final(left)
            == *old(left) && *final(right) == *old(right) && final(awake)@ == old(awake)@ && texts(final(log)@)
            == texts(old(log)@).push("You have no rings to put on."@),
        forall|i: int| #[trigger] first_of(old(inventory)@, is_ring(), i) ==> if (*old(left)) is Some && (*old(right)) is Some {
            &&& !acted
            &&& final(inventory)@ == old(inventory)@ && *final(left) == *old(left) && *final(right) == *old(right)
            &&& final(awake)@ == old(awake)@
            &&& texts(final(log)@) == texts(old(log)@).push(
                "You are already wearing two rings. Remove one first (Shift+R)."@)
        } else {
            let it = old(inventory)@[i];
            let kind = it.kind->Ring_0;
            let on_left = (*old(left)) is None;
            &&& acted
            &&& final(inventory)@ == old(inventory)@.remove(i)
            &&& on_left ==> *final(left) == Some(kind) && *final(right) == *old(right)
            &&& !on_left ==> *final(right) == Some(kind) && *final(left) == *old(left)
            &&& kind == RingKind::AggravateMonster ==> final(awake)@.len() == old(awake)@.len() && forall|k: int|
                0 <= k < final(awake)@.len() ==> #[trigger] final(awake)@[k]
            &&& kind != RingKind::AggravateMonster ==> final(awake)@ == old(awake)@
            &&& texts(final(log)@) == texts(old(log)@).push("You put on the "@ + it.name@ + " ("@ + (if on_left {
                "left"@
            } else {
                "right"@
            }) + " hand)."@) + equip_texts(kind, old(awake)@.len() as int)
        },
{
    let found = find_ring(inventory);
    let i = match found {
        None => {
            say(log, text1("You have no rings to put on."));
            return false;
        },
        Some(i) => i,
    };
    let hand = match free_hand(*left, *right) {
        None => {
            say(log, text1("You are already wearing two rings. Remove one first (Shift+R)."));
            return false;
        },
        Some(h) => h,
    };
    let item = inventory.remove(i);
    let kind = match item.kind {
        ItemKind::Ring(k) => k,
        _ => {
            proof {
                assert(false);
            }
            RingKind::Unknown
        },
    };
    let mut msg = text3("You put on the ", &item.name, " (");
    match hand {
        Hand::Left => {
            *left = Some(kind);
            push_str(&mut msg, "left");
        },
        Hand::Right => {
            *right = Some(kind);
            push_str(&mut msg, "right");
        },
    }
    push_str(&mut msg, " hand).");
    say(log, msg);
    let ghost log0 = texts(log@);
    match kind {
        RingKind::AggravateMonster => {
            aggravate(awake, log);
            say(log, text1("The ring pulses with malevolent energy!"));
        },
        RingKind::Teleportation => say(log, text1("The ring crackles with unstable energy...")),
        RingKind::Searching => say(log, text1("Your senses sharpen.")),
        RingKind::SlowDigestion => say(log, text1("You feel your metabolism slow.")),
        RingKind::Regeneration => say(log, text1("You feel a surge of vitality.")),
        RingKind::SustainStrength => say(log, text1("Your muscles feel fortified.")),
        RingKind::SeeInvisible => say(log, text1("The world looks slightly different...")),
        _ => {},
    }
    assert(texts(log@) =~= log0 + equip_texts(kind, old(awake)@.len() as int));
    true
}

/// The item names the player has identified this run.
pub struct KnownItems {
    names: Vec<String>,
}

impl View for KnownItems {
    type V = Set<Seq<char>>;

    closed spec fn view(&self) -> Set<Seq<char>> {
        self.names@.map_values(|s: String| s@).to_set()
    }
}

impl KnownItems {
    /// Nothing identified yet.
    pub fn new() -> (k: Self)
        ensures
            k@ == Set::<Seq<char>>::empty(),
    {
        let k = KnownItems { names: Vec::new() };
        assert(k@ =~= Set::<Seq<char>>::empty());
        k
    }

    /// Mark an item name as identified.
    pub fn identify(&mut self, base_name: &str)
        ensures
            final(self)@ == old(self)@.insert(base_name@),
    {
        let ghost before = self.names@;
        self.names.push(text1(base_name));
        proof {
            let f = |s: String| s@;
            assert(self.names@.map_values(f) =~= before.map_values(f).push(base_name@));
            before.map_values(f).lemma_push_to_set_commute(base_name@);
        }
    }

    /// Has this item name been identified?
    pub fn is_known(&self, base_name: &str) -> (b: bool)
        ensures
            b == self@.contains(base_name@),
    {
        let mut i: usize = 0;
        while i < self.names.len()
            invariant
                i <= self.names@.len(),
                forall|j: int| 0 <= j < i ==> (#[trigger] self.names@[j])@ != base_name@,
            decreases self.names@.len() - i,
        {
            let v = crate::text::chars_of(self.names[i].as_str());
            if crate::text::chars_equal(&v, base_name) {
                proof {
                    let f = |s: String| s@;
                    assert(self.names@.map_values(f)[i as int] == base_name@);
                    assert(self.names@.map_values(f).contains(base_name@));
                }
                return true;
            }
            i = i + 1;
        }
        proof {
            let f = |s: String| s@;
            assert forall|j: int| 0 <= j < self.names@.map_values(f).len() implies self.names@.map_values(f)[j]
                != base_name@ by {
                assert(self.names@.map_values(f)[j] == self.names@[j]@);
            }
        }
        false
    }
}

/// Healing draughts and potions.
pub open spec fn is_drink() -> spec_fn(ItemKind) -> bool {
    |k: ItemKind| k is Heal || k is Potion
}

/// Scrolls.
pub open spec fn is_scroll() -> spec_fn(ItemKind) -> bool {
    |k: ItemKind| k is Scroll
}

/// What a potion of `kind` says after it is quaffed.
pub open spec fn potion_texts(kind: PotionKind) -> Seq<Seq<char>> {
    match kind {
        PotionKind::Healing => seq!["You feel better."@],
        PotionKind::ExtraHealing => seq!["You feel much better."@],
        PotionKind::Poison => seq!["You are poisoned!"@, "You feel very sick."@],
        PotionKind::GainStrength => seq!["You feel stronger."@],
        PotionKind::RestoreStrength => seq!["You feel your strength returning."@],
        PotionKind::SeeInvisible => seq!["You feel yourself moving faster for 1 turns!"@, "Your eyes tingle."@],
        PotionKind::Confusion => seq!["You are confused for 20 turns!"@],
        PotionKind::Blindness => seq!["You are blinded for 30 turns!"@],
        PotionKind::Hallucination => seq!["Oh wow! Everything seems so cosmic!"@],
        PotionKind::HasteSelf => seq!["You feel yourself moving faster for 20 turns!"@],
        PotionKind::RaiseLevel => seq!["You feel more experienced."@],
        PotionKind::MonsterDetection => seq!["You sense the presence of monsters."@],
        PotionKind::MagicDetection => seq!["You sense the presence of magic."@],
        PotionKind::Levitation => seq!["You float up into the air."@],
        PotionKind::Unknown => seq!["Nothing seems to happen."@],
    }
}

fn say_potion(log: &mut Vec<String>, kind: PotionKind)
    ensures
        texts(final(log)@) == texts(old(log)@) + potion_texts(kind),
{
    let ghost log0 = texts(log@);
    match kind {
        PotionKind::Healing => say(log, text1("You feel better.")),
        PotionKind::ExtraHealing => say(log, text1("You feel much better.")),
        PotionKind::Poison => {
            say(log, text1("You are poisoned!"));
            say(log, text1("You feel very sick."));
        },
        PotionKind::GainStrength => say(log, text1("You feel stronger.")),
        PotionKind::RestoreStrength => say(log, text1("You feel your strength returning.")),
        PotionKind::SeeInvisible => {
            say(log, text1("You feel yourself moving faster for 1 turns!"));
            say(log, text1("Your eyes tingle."));
        },
        PotionKind::Confusion => say(log, text1("You are confused for 20 turns!")),
        PotionKind::Blindness => say(log, text1("You are blinded for 30 turns!")),
        PotionKind::Hallucination => say(log, text1("Oh wow! Everything seems so cosmic!")),
        PotionKind::HasteSelf => say(log, text1("You feel yourself moving faster for 20 turns!")),
        PotionKind::RaiseLevel => say(log, text1("You feel more experienced.")),
        PotionKind::MonsterDetection => say(log, text1("You sense the presence of monsters.")),
        PotionKind::MagicDetection => say(log, text1("You sense the presence of magic.")),
        PotionKind::Levitation => say(log, text1("You float up into the air.")),
        PotionKind::Unknown => say(log, text1("Nothing seems to happen.")),
    }
    assert(texts(log@) =~= log0 + potion_texts(kind));
}

/// The index of the first item of the pack that is a drink (`scroll` false)
/// or a scroll (`scroll` true).
fn find_kind(inv: &Vec<Item>, scroll: bool) -> (r: Option<usize>)
    ensures
        match r {
            Some(i) => first_of(inv@, if scroll { is_scroll() } else { is_drink() }, i as int),
            None => none_of(inv@, if scroll { is_scroll() } else { is_drink() }),
        },
{
    let ghost pick = if scroll { is_scroll() } else { is_drink() };
    let mut i: usize = 0;
    while i < inv.len()
        invariant
            i <= inv@.len(),
            pick == if scroll { is_scroll() } else { is_drink() },
            forall|j: int| 0 <= j < i ==> !pick(#[trigger] inv@[j].kind),
        decreases inv@.len() - i,
    {
        let hit = match inv[i].kind {
            ItemKind::Scroll(_) => scroll,
            ItemKind::Heal(_) | ItemKind::Potion(_) => !scroll,
            _ => false,
        };
        if hit {
            return Some(i);
        }
        i = i + 1;
    }
    None
}

/// Quaff the first healing draught or potion of the pack and identify it. A
/// draught heals its amount (up to the maximum); a potion takes its effect
/// (see [`apply_potion`]).
pub fn quaff<R: RogueRng>(
    inventory: &mut Vec<Item>,
    player: &mut Stats,
    status: &mut StatusEffects,
    known: &mut KnownItems,
    log: &mut Vec<String>,
    rng: &mut R,
) -> (acted: bool)
    requires
        status_fits(*old(status), 30),
        old(player).hp <= i32::MAX - 30,
        old(player).strength < i32::MAX,
        old(player).level < i32::MAX,
        forall|k: int| 0 <= k < old(inventory)@.len() && (#[trigger] old(inventory)@[k]).kind is Heal ==> i32::MIN
            <= old(player).hp + old(inventory)@[k].kind->Heal_0 <= i32::MAX,
    ensures
        none_of(old(inventory)@, is_drink()) ==> !acted && final(inventory)@ == old(inventory)@ && *final(player)
            == *old(player) && *final(status) == *old(status) && final(known)@ == old(known)@ && texts(final(log)@)
            == texts(old(log)@).push("You have no potions."@),
        forall|i: int| #[trigger] first_of(old(inventory)@, is_drink(), i) ==> {
            let it = old(inventory)@[i];
            let log0 = texts(old(log)@);
            let log1 = texts(final(log)@);
            &&& acted
            &&& final(inventory)@ == old(inventory)@.remove(i)
            &&& final(known)@ == old(known)@.insert(it.name@)
            &&& match it.kind {
                ItemKind::Heal(a) => {
                    &&& *final(player) == (Stats { hp: healed(old(player).hp as int, old(player).max_hp as int, a as int) as i32, ..*old(player) })
                    &&& *final(status) == *old(status)
                    &&& log1 == log0.push("You quaff "@ + it.name@ + " and feel better."@)
                },
                ItemKind::Potion(kind) => {
                    &&& exists|r: int| potion_roll_ok(kind, r) && (*final(status), final(player).level as int,
                        final(player).strength as int, final(player).hp as int) == #[trigger] potion_applied(kind,
                        *old(status), *old(player), r)
                    &&& final(player).max_hp == old(player).max_hp && final(player).armor == old(player).armor
                    &&& final(player).damage == old(player).damage && final(player).hit_plus == old(player).hit_plus
                    &&& final(player).dam_plus == old(player).dam_plus && final(player).xp_reward == old(player).xp_reward
                    &&& log1 == log0.push("You quaff the "@ + it.name@ + "."@) + potion_texts(kind)
                },
                _ => false,
            }
        },
{
    let i = match find_kind(inventory, false) {
        None => {
            say(log, text1("You have no potions."));
            return false;
        },
        Some(i) => i,
    };
    let item = inventory.remove(i);
    match item.kind {
        ItemKind::Heal(amount) => {
            let hp = player.hp + amount;
            player.hp = if hp <= player.max_hp { hp } else { player.max_hp };
            say(log, text3("You quaff ", &item.name, " and feel better."));
        },
        ItemKind::Potion(kind) => {
            say(log, text3("You quaff the ", &item.name, "."));
            apply_potion(kind, status, player, rng);
            say_potion(log, kind);
        },
        _ => {
            proof {
                assert(false);
            }
        },
    }
    known.identify(item.name.as_str());
    true
}

/// What a scroll of `kind` says after it is read; `moved` says a teleport
/// found somewhere to go, and `n` is the number of monsters woken.
pub open spec fn scroll_texts(kind: ScrollKind, moved: bool, n: int) -> Seq<Seq<char>> {
    match kind {
        ScrollKind::MagicMapping => seq!["The dungeon layout floods into your mind!"@],
        ScrollKind::Teleport => if moved {
            seq!["You blink across the dungeon!"@]
        } else {
            seq!["The air shimmers, but nothing happens."@]
        },
        ScrollKind::EnchantWeapon => seq!["Your weapon glows blue for a moment."@],
        ScrollKind::EnchantArmor => seq!["Your armor glows silver for a moment."@],
        ScrollKind::Aggravate => seq![aggravate_text(n)],
        ScrollKind::Identify => seq!["Your items shimmer with clarity! All items identified."@],
        ScrollKind::Unknown => seq!["The scroll crumbles to dust. Nothing happens."@],
    }
}

/// Read the first scroll of the pack: magic mapping reveals the level; a
/// teleport moves the player to a random free walkable tile (`occupied` are
/// taken); enchanting raises the weapon's to-hit and damage by one or betters
/// the armor by one; aggravation wakes every monster; identification marks
/// every item left in the pack as known.
pub fn read_scroll<R: RogueRng>(
    inventory: &mut Vec<Item>,
    player: &mut Stats,
    pos: &mut Point,
    map: &mut LevelMap,
    occupied: &[Point],
    awake: &mut Vec<bool>,
    known: &mut KnownItems,
    log: &mut Vec<String>,
    rng: &mut R,
) -> (acted: bool)
    requires
        old(map).wf(),
        old(player).hit_plus < i32::MAX,
        old(player).dam_plus < i32::MAX,
        old(player).armor > i32::MIN,
        old(awake)@.len() <= i32::MAX,
    ensures
        none_of(old(inventory)@, is_scroll()) ==> !acted && final(inventory)@ == old(inventory)@ && *final(player)
            == *old(player) && *final(pos) == *old(pos) && *final(map) == *old(map) && final(awake)@ == old(awake)@
            && final(known)@ == old(known)@ && texts(final(log)@) == texts(old(log)@).push("You have no scrolls to read."@),
        forall|i: int| #[trigger] first_of(old(inventory)@, is_scroll(), i) ==> {
            let it = old(inventory)@[i];
            let kind = it.kind->Scroll_0;
            let rest = old(inventory)@.remove(i);
            &&& acted
            &&& final(inventory)@ == rest
            &&& *final(player) == match kind {
                ScrollKind::EnchantWeapon => Stats {
                    hit_plus: (old(player).hit_plus + 1) as i32,
                    dam_plus: (old(player).dam_plus + 1) as i32,
                    ..*old(player)
                },
                ScrollKind::EnchantArmor => Stats { armor: (old(player).armor - 1) as i32, ..*old(player) },
                _ => *old(player),
            }
            &&& kind == ScrollKind::MagicMapping ==> crate::cli::wands::mapped(old(map), final(map))
            &&& kind != ScrollKind::MagicMapping ==> *final(map) == *old(map)
            &&& kind == ScrollKind::Teleport ==> landing_ok(old(map), occupied@, *final(pos)) || (*final(pos) == *old(pos)
                && forall|p: Point| !landing_ok(old(map), occupied@, p))
            &&& kind != ScrollKind::Teleport ==> *final(pos) == *old(pos)
            &&& kind == ScrollKind::Aggravate ==> final(awake)@.len() == old(awake)@.len() && forall|k: int|
                0 <= k < final(awake)@.len() ==> #[trigger] final(awake)@[k]
            &&& kind != ScrollKind::Aggravate ==> final(awake)@ == old(awake)@
            &&& final(known)@ == if kind == ScrollKind::Identify {
                old(known)@.union(rest.map_values(|x: Item| x.name@).to_set())
            } else {
                old(known)@
            }
            &&& texts(final(log)@) == texts(old(log)@).push("You read the "@ + it.name@ + "."@) + scroll_texts(kind,
                landing_ok(old(map), occupied@, *final(pos)), old(awake)@.len() as int)
        },
{
    let i = match find_kind(inventory, true) {
        None => {
            say(log, text1("You have no scrolls to read."));
            return false;
        },
        Some(i) => i,
    };
    let item = inventory.remove(i);
    let kind = match item.kind {
        ItemKind::Scroll(k) => k,
        _ => {
            proof {
                assert(false);
            }
            ScrollKind::Unknown
        },
    };
    say(log, text3("You read the ", &item.name, "."));
    let ghost log0 = texts(log@);
    let ghost moved = false;
    match kind {
        ScrollKind::MagicMapping => {
            map.magic_mapping();
            say(log, text1("The dungeon layout floods into your mind!"));
        },
        ScrollKind::Teleport => {
            match teleport_target(map, occupied, rng) {
                Some(p) => {
                    *pos = p;
                    say(log, text1("You blink across the dungeon!"));
                },
                None => {
                    say(log, text1("The air shimmers, but nothing happens."));
                },
            }
        },
        ScrollKind::EnchantWeapon => {
            player.hit_plus = player.hit_plus + 1;
            player.dam_plus = player.dam_plus + 1;
            say(log, text1("Your weapon glows blue for a moment."));
        },
        ScrollKind::EnchantArmor => {
            player.armor = player.armor - 1;
            say(log, text1("Your armor glows silver for a moment."));
        },
        ScrollKind::Aggravate => {
            aggravate(awake, log);
        },
        ScrollKind::Identify => {
            let ghost k0 = known@;
            let ghost rest = inventory@;
            let mut j: usize = 0;
            while j < inventory.len()
                invariant
                    j <= inventory@.len(),
                    inventory@ == rest,
                    known@ == k0.union(rest.take(j as int).map_values(|x: Item| x.name@).to_set()),
                decreases inventory@.len() - j,
            {
                let ghost before = known@;
                known.identify(inventory[j].name.as_str());
                proof {
                    let f = |x: Item| x.name@;
                    assert(rest.take(j + 1).map_values(f) =~= rest.take(j as int).map_values(f).push(rest[j as int].name@));
                    rest.take(j as int).map_values(f).lemma_push_to_set_commute(rest[j as int].name@);
                    assert(known@ =~= k0.union(rest.take(j + 1).map_values(f).to_set()));
                }
                j = j + 1;
            }
            assert(rest.take(rest.len() as int) =~= rest);
            say(log, text1("Your items shimmer with clarity! All items identified."));
        },
        ScrollKind::Unknown => {
            say(log, text1("The scroll crumbles to dust. Nothing happens."));
        },
    }
    assert(texts(log@) =~= log0 + scroll_texts(kind, landing_ok(old(map), occupied@, *pos), old(awake)@.len() as int));
    true
}

} // verus!
