//! The universal entity type: terrain fixtures, items and actors are all
//! `Object`s, distinguished by which optional components they carry.
//! `ObjectClass` is the immutable template an `Object` is instantiated from.

use vstd::assert_seqs_equal;
use vstd::prelude::*;
use vstd::string::StringExecFns;

use crate::actor::{DeathCallback, Fighter};
use crate::ai::{clone_ai_opt, Ai};
use crate::item::Function;
use crate::log::{
    added_msgs, dec_digits, log_extends, one_msg, push_u64_dec, MessageLog, MessageType, Messages,
};

verus! {

/// A display color, as the configuration files give it.
#[derive(Clone, Copy, Debug, PartialEq, Eq, Structural)]
pub struct Color {
    pub r: u8,
    pub g: u8,
    pub b: u8,
}

/// The color dead things are drawn in.
pub open spec fn dark_red() -> Color {
    Color { r: 191, g: 0, b: 0 }
}

/// How strongly something obstructs movement or sight. Levels combine by
/// taking the most restrictive one.
#[derive(Clone, Copy, Debug, PartialEq, Eq, Structural)]
pub enum Blocks {
    No,
    Half,
    Full,
}

impl Blocks {
    /// The obstruction strength as a number, for comparing levels.
    pub open spec fn level(self) -> int {
        match self {
            Blocks::No => 0,
            Blocks::Half => 1,
            Blocks::Full => 2,
        }
    }

    /// The more restrictive of two levels.
    pub fn combine(self, other: Blocks) -> (r: Blocks)
        ensures
            r.level() == level_max(self.level(), other.level()),
    {
        match (self, other) {
            (Blocks::Full, _) => Blocks::Full,
            (_, Blocks::Full) => Blocks::Full,
            (Blocks::Half, _) => Blocks::Half,
            (_, Blocks::Half) => Blocks::Half,
            (Blocks::No, Blocks::No) => Blocks::No,
        }
    }
}

/// The larger of two levels.
pub open spec fn level_max(a: int, b: int) -> int {
    if a >= b {
        a
    } else {
        b
    }
}

/// Which catalog an object template belongs to.
#[derive(Clone, Copy, Debug, PartialEq, Eq, Structural)]
pub enum ObjectCategory {
    Actor,
    Item,
}

/// An immutable template from which objects are instantiated: the entry of
/// a catalog, grouped by `object_type` and drawn with weight `chance`.
#[derive(Debug)]
pub struct ObjectClass {
    pub ai: Option<Ai>,
    pub alive: bool,
    pub blocks: Blocks,
    pub blocks_view: Blocks,
    pub can_pick_up: bool,
    pub chance: u32,
    pub color: Color,
    pub context: String,
    pub description: String,
    pub fighter: Option<Fighter>,
    pub function: Option<Function>,
    pub inventory: Option<Vec<Object>>,
    pub name: String,
    pub object_type: String,
    pub symbol: char,
}

/// One entity in the world. Which optional components are populated
/// decides its role: `fighter` plus `ai` makes a monster, `function`
/// makes a usable item, none of them an inert fixture.
#[derive(Debug)]
pub struct Object {
    pub ai: Option<Ai>,
    pub alive: bool,
    pub blocks: Blocks,
    pub blocks_view: Blocks,
    pub can_pick_up: bool,
    pub color: Color,
    pub fighter: Option<Fighter>,
    pub function: Option<Function>,
    pub inventory: Option<Vec<Object>>,
    pub name: String,
    pub object_type: String,
    pub symbol: char,
    pub x: i32,
    pub y: i32,
}

/// Both inventories are absent, or both are present and hold pairwise
/// like objects, all the way down.
pub open spec fn inv_like(a: Option<Vec<Object>>, b: Option<Vec<Object>>) -> bool
    decreases a,
{
    match (a, b) {
        (Option::None, Option::None) => true,
        (Option::Some(va), Option::Some(vb)) => va@.len() == vb@.len() && (forall|k: int|
            0 <= k < va@.len() ==> object_like(#[trigger] va@[k], vb@[k])),
        _ => false,
    }
}

/// All named attributes agree, and the carried inventories are alike
/// object by object, recursively.
pub open spec fn object_like(a: Object, b: Object) -> bool
    decreases a,
{
    &&& a.ai == b.ai
    &&& a.alive == b.alive
    &&& a.blocks == b.blocks
    &&& a.blocks_view == b.blocks_view
    &&& a.can_pick_up == b.can_pick_up
    &&& a.color == b.color
    &&& a.fighter == b.fighter
    &&& a.function == b.function
    &&& inv_like(a.inventory, b.inventory)
    &&& a.name@ == b.name@
    &&& a.object_type@ == b.object_type@
    &&& a.symbol == b.symbol
    &&& a.x == b.x
    &&& a.y == b.y
}

/// Likeness of objects is symmetric.
pub proof fn lemma_object_like_sym(a: Object, b: Object)
    requires
        object_like(a, b),
    ensures
        object_like(b, a),
    decreases a,
{
    match (a.inventory, b.inventory) {
        (Option::Some(va), Option::Some(vb)) => {
            assert forall|k: int| 0 <= k < vb@.len() implies object_like(
                #[trigger] vb@[k],
                va@[k],
            ) by {
                assert(object_like(va@[k], vb@[k]));
                assert(decreases_to!(a => va@[k]));
                lemma_object_like_sym(va@[k], vb@[k]);
            }
        },
        _ => {},
    }
}

/// Likeness of objects chains.
pub proof fn lemma_object_like_trans(a: Object, b: Object, c: Object)
    requires
        object_like(a, b),
        object_like(b, c),
    ensures
        object_like(a, c),
    decreases a,
{
    match (a.inventory, b.inventory, c.inventory) {
        (Option::Some(va), Option::Some(vb), Option::Some(vc)) => {
            assert forall|k: int| 0 <= k < va@.len() implies object_like(
                #[trigger] va@[k],
                vc@[k],
            ) by {
                assert(object_like(va@[k], vb@[k]));
                assert(object_like(vb@[k], vc@[k]));
                assert(decreases_to!(a => va@[k]));
                lemma_object_like_trans(va@[k], vb@[k], vc@[k]);
            }
        },
        _ => {},
    }
}

/// Likeness of inventories is symmetric.
pub proof fn lemma_inv_like_sym(a: Option<Vec<Object>>, b: Option<Vec<Object>>)
    requires
        inv_like(a, b),
    ensures
        inv_like(b, a),
{
    match (a, b) {
        (Option::Some(va), Option::Some(vb)) => {
            assert forall|k: int| 0 <= k < vb@.len() implies object_like(
                #[trigger] vb@[k],
                va@[k],
            ) by {
                assert(object_like(va@[k], vb@[k]));
                lemma_object_like_sym(va@[k], vb@[k]);
            }
        },
        _ => {},
    }
}

/// Likeness of inventories chains.
pub proof fn lemma_inv_like_trans(
    a: Option<Vec<Object>>,
    b: Option<Vec<Object>>,
    c: Option<Vec<Object>>,
)
    requires
        inv_like(a, b),
        inv_like(b, c),
    ensures
        inv_like(a, c),
{
    match (a, b, c) {
        (Option::Some(va), Option::Some(vb), Option::Some(vc)) => {
            assert forall|k: int| 0 <= k < va@.len() implies object_like(
                #[trigger] va@[k],
                vc@[k],
            ) by {
                assert(object_like(va@[k], vb@[k]));
                assert(object_like(vb@[k], vc@[k]));
                lemma_object_like_trans(va@[k], vb@[k], vc@[k]);
            }
        },
        _ => {},
    }
}

/// A copy of a list of objects, each copied like `Object::duplicate`.
fn clone_object_vec(v: &Vec<Object>) -> (w: Vec<Object>)
    ensures
        w@.len() == v@.len(),
        forall|k: int| 0 <= k < v@.len() ==> object_like(#[trigger] v@[k], w@[k]),
    decreases v@,
{
    let mut w: Vec<Object> = Vec::new();
    let mut i: usize = 0;
    while i < v.len()
        invariant
            0 <= i <= v@.len(),
            w@.len() == i as int,
            forall|k: int| 0 <= k < i as int ==> object_like(#[trigger] v@[k], w@[k]),
        decreases v@.len() - i,
    {
        proof {
            assert(decreases_to!(v@ => v@[i as int]));
        }
        w.push(v[i].duplicate());
        i += 1;
    }
    w
}

/// A copy of an optional inventory.
fn clone_inventory(inv: &Option<Vec<Object>>) -> (r: Option<Vec<Object>>)
    ensures
        inv_like(*inv, r),
    decreases *inv,
{
    match inv {
        Option::None => Option::None,
        Option::Some(v) => {
            proof {
                assert(decreases_to!(*inv => *v));
                assert(decreases_to!(*v => v@));
            }
            Option::Some(clone_object_vec(v))
        },
    }
}

/// `o` is a fresh instance of template `c`: every attribute copied, the
/// position still unset.
pub open spec fn instantiates(o: Object, c: ObjectClass) -> bool {
    &&& o.ai == c.ai
    &&& o.alive == c.alive
    &&& o.blocks == c.blocks
    &&& o.blocks_view == c.blocks_view
    &&& o.can_pick_up == c.can_pick_up
    &&& o.color == c.color
    &&& o.fighter == c.fighter
    &&& o.function == c.function
    &&& inv_like(c.inventory, o.inventory)
    &&& o.name@ == c.name@
    &&& o.object_type@ == c.object_type@
    &&& o.symbol == c.symbol
    &&& o.x == 0
    &&& o.y == 0
}

/// Two templates agree on every attribute.
pub open spec fn class_eq(a: ObjectClass, b: ObjectClass) -> bool {
    &&& a.ai == b.ai
    &&& a.alive == b.alive
    &&& a.blocks == b.blocks
    &&& a.blocks_view == b.blocks_view
    &&& a.can_pick_up == b.can_pick_up
    &&& a.chance == b.chance
    &&& a.color == b.color
    &&& a.context@ == b.context@
    &&& a.description@ == b.description@
    &&& a.fighter == b.fighter
    &&& a.function == b.function
    &&& inv_like(a.inventory, b.inventory)
    &&& a.name@ == b.name@
    &&& a.object_type@ == b.object_type@
    &&& a.symbol == b.symbol
}

impl ObjectClass {
    /// A fresh instance of this template, position not yet set.
    pub fn create_object(&self) -> (o: Object)
        ensures
            instantiates(o, *self),
    {
        Object {
            ai: clone_ai_opt(&self.ai),
            alive: self.alive,
            blocks: self.blocks,
            blocks_view: self.blocks_view,
            can_pick_up: self.can_pick_up,
            color: self.color,
            fighter: self.fighter,
            function: self.function,
            inventory: clone_inventory(&self.inventory),
            name: self.name.clone(),
            object_type: self.object_type.clone(),
            symbol: self.symbol,
            x: 0,
            y: 0,
        }
    }

    /// A copy of this template.
    pub fn clone_class(&self) -> (r: ObjectClass)
        ensures
            class_eq(r, *self),
    {
        let r = ObjectClass {
            ai: clone_ai_opt(&self.ai),
            alive: self.alive,
            blocks: self.blocks,
            blocks_view: self.blocks_view,
            can_pick_up: self.can_pick_up,
            chance: self.chance,
            color: self.color,
            context: self.context.clone(),
            description: self.description.clone(),
            fighter: self.fighter,
            function: self.function,
            inventory: clone_inventory(&self.inventory),
            name: self.name.clone(),
            object_type: self.object_type.clone(),
            symbol: self.symbol,
        };
        proof {
            lemma_inv_like_sym(self.inventory, r.inventory);
        }
        r
    }
}

/// Hit points after healing by `amount`: the sum, held below the
/// maximum and above zero.
pub open spec fn healed_hp(hp: int, max_hp: int, amount: int) -> i32 {
    let lifted = if hp + amount < 0 {
        0
    } else {
        hp + amount
    };
    if lifted > max_hp {
        max_hp as i32
    } else {
        lifted as i32
    }
}

/// The attack strength an object contributes: its fighter's power, or
/// none without a fighter.
pub open spec fn power_of(o: Object) -> int {
    match o.fighter {
        Option::Some(f) => f.power as int,
        Option::None => 0,
    }
}

/// The damage an object absorbs: its fighter's defense, or none.
pub open spec fn defense_of(o: Object) -> int {
    match o.fighter {
        Option::Some(f) => f.defense as int,
        Option::None => 0,
    }
}

/// How `take_damage` transforms the damaged object itself: nothing
/// happens without a fighter or to non-positive damage; damage below the
/// current hit points is subtracted; damage at or above them clamps the
/// hit points to zero, and on the one transition out of life runs the
/// death transformation the fighter carries.
pub open spec fn take_damage_state_rel(o0: Object, o1: Object, damage: int) -> bool {
    match o0.fighter {
        Option::None => o1 == o0,
        Option::Some(f) => if damage <= 0 {
            o1 == o0
        } else if damage < f.hp {
            o1 == (Object { fighter: Option::Some(Fighter { hp: (f.hp - damage) as i32, ..f }), ..o0 })
        } else if !o0.alive {
            o1 == (Object { fighter: Option::Some(Fighter { hp: 0, ..f }), ..o0 })
        } else {
            match f.on_death {
                DeathCallback::Player => o1 == (Object {
                    alive: false,
                    symbol: '%',
                    color: dark_red(),
                    fighter: Option::Some(Fighter { hp: 0, ..f }),
                    ..o0
                }),
                DeathCallback::Monster => monster_remains_rel(o0, o1),
            }
        },
    }
}

/// The monster death transformation: the corpse keeps its place but
/// loses its components, stops blocking, and is renamed to its remains.
pub open spec fn monster_remains_rel(o0: Object, o1: Object) -> bool {
    &&& o1.ai is None
    &&& o1.alive == false
    &&& o1.blocks == Blocks::No
    &&& o1.blocks_view == Blocks::No
    &&& o1.can_pick_up == o0.can_pick_up
    &&& o1.color == dark_red()
    &&& o1.fighter is None
    &&& o1.function == o0.function
    &&& o1.inventory == o0.inventory
    &&& o1.name@ == "remains of "@ + o0.name@
    &&& o1.object_type == o0.object_type
    &&& o1.symbol == '%'
    &&& o1.x == o0.x
    &&& o1.y == o0.y
}

/// What `take_damage` appends to the log: one message exactly when the
/// object dies of the damage, its text and severity chosen by the death
/// variant.
pub open spec fn take_damage_msgs_rel(
    o0: Object,
    added: Seq<(String, MessageType)>,
    damage: int,
) -> bool {
    match o0.fighter {
        Option::None => added.len() == 0,
        Option::Some(f) => if damage <= 0 || damage < f.hp || !o0.alive {
            added.len() == 0
        } else {
            match f.on_death {
                DeathCallback::Player => one_msg(added, "You died!"@, MessageType::Alert),
                DeathCallback::Monster => one_msg(
                    added,
                    o0.name@ + " is dead!"@,
                    MessageType::StatusChange,
                ),
            }
        },
    }
}

/// The text of the log entry for a landed attack.
pub open spec fn attack_hit_text(attacker: Seq<char>, target: Seq<char>, damage: int) -> Seq<char> {
    attacker + " attacks "@ + target + " for "@ + dec_digits(damage as nat) + " hit points."@
}

/// The text of the log entry for an attack the defense fully absorbed.
pub open spec fn attack_miss_text(attacker: Seq<char>, target: Seq<char>) -> Seq<char> {
    attacker + " attacks "@ + target + " but whatevs!"@
}

/// How one melee attack relates attacker, target and the appended log
/// entries: the damage is the attacker's power less the target's
/// defense; positive damage is logged and applied per `take_damage`,
/// anything else leaves the target untouched and logs a miss.
pub open spec fn attack_rel(
    atk: Object,
    t0: Object,
    t1: Object,
    added: Seq<(String, MessageType)>,
) -> bool {
    let d = power_of(atk) - defense_of(t0);
    if d > 0 {
        &&& added.len() >= 1
        &&& added[0].0@ == attack_hit_text(atk.name@, t0.name@, d)
        &&& added[0].1 == MessageType::Info
        &&& take_damage_state_rel(t0, t1, d)
        &&& take_damage_msgs_rel(t0, added.skip(1), d)
    } else {
        &&& t1 == t0
        &&& one_msg(added, attack_miss_text(atk.name@, t0.name@), MessageType::Info)
    }
}

impl Object {
    /// A bare object with no components, as used for hand-built fixtures.
    pub fn new(
        x: i32,
        y: i32,
        symbol: char,
        name: &str,
        color: Color,
        blocks: Blocks,
        blocks_view: Blocks,
    ) -> (o: Object)
        ensures
            o == (Object {
                ai: Option::None,
                alive: false,
                blocks: blocks,
                blocks_view: blocks_view,
                can_pick_up: false,
                color: color,
                fighter: Option::None,
                function: Option::None,
                inventory: Option::None,
                name: o.name,
                object_type: o.object_type,
                symbol: symbol,
                x: x,
                y: y,
            }),
            o.name@ == name@,
            o.object_type@ == Seq::<char>::empty(),
    {
        Object {
            ai: Option::None,
            alive: false,
            blocks: blocks,
            blocks_view: blocks_view,
            can_pick_up: false,
            color: color,
            fighter: Option::None,
            function: Option::None,
            inventory: Option::None,
            name: name.to_owned(),
            object_type: String::new(),
            symbol: symbol,
            x: x,
            y: y,
        }
    }

    /// A fresh instance of a template, like `ObjectClass::create_object`.
    pub fn from_class(object_class: &ObjectClass) -> (o: Object)
        ensures
            instantiates(o, *object_class),
    {
        object_class.create_object()
    }

    /// A deep copy: every attribute of the object is kept, and a
    /// carried inventory is copied object by object the same way.
    pub fn duplicate(&self) -> (r: Object)
        ensures
            object_like(*self, r),
        decreases *self,
    {
        proof {
            assert(decreases_to!(*self => self.inventory));
        }
        Object {
            ai: clone_ai_opt(&self.ai),
            alive: self.alive,
            blocks: self.blocks,
            blocks_view: self.blocks_view,
            can_pick_up: self.can_pick_up,
            color: self.color,
            fighter: self.fighter,
            function: self.function,
            inventory: clone_inventory(&self.inventory),
            name: self.name.clone(),
            object_type: self.object_type.clone(),
            symbol: self.symbol,
            x: self.x,
            y: self.y,
        }
    }

    /// The object's position on the grid.
    pub fn pos(&self) -> (p: (i32, i32))
        ensures
            p == (self.x, self.y),
    {
        (self.x, self.y)
    }

    /// Moves the object to the given cell.
    pub fn set_pos(&mut self, x: i32, y: i32)
        ensures
            *final(self) == (Object { x: x, y: y, ..*old(self) }),
    {
        self.x = x;
        self.y = y;
    }

    /// The squared distance from this object to the given cell.
    pub fn distance_sq(&self, x: i32, y: i32) -> (r: i128)
        ensures
            r == (x - self.x) * (x - self.x) + (y - self.y) * (y - self.y),
    {
        let dx: i128 = x as i128 - self.x as i128;
        let dy: i128 = y as i128 - self.y as i128;
        proof {
            lemma_small_square(dx as int);
            lemma_small_square(dy as int);
        }
        dx * dx + dy * dy
    }

    /// The squared distance between this object and another.
    pub fn distance_to_sq(&self, other: &Object) -> (r: i128)
        ensures
            r == (other.x - self.x) * (other.x - self.x) + (other.y - self.y) * (other.y
                - self.y),
    {
        self.distance_sq(other.x, other.y)
    }

    /// Restores hit points, clamped so they never end above the maximum
    /// nor below zero; does nothing to an object without a fighter. A
    /// negative amount drains instead of restoring, held to the same
    /// bounds.
    pub fn heal(&mut self, amount: i32)
        ensures
            match old(self).fighter {
                Option::None => *final(self) == *old(self),
                Option::Some(f) => *final(self) == (Object {
                    fighter: Option::Some(
                        Fighter { hp: healed_hp(f.hp as int, f.max_hp as int, amount as int), ..f },
                    ),
                    ..*old(self)
                }),
            },
            final(self).fighter matches Option::Some(f) ==> f.hp <= f.max_hp,
    {
        if let Option::Some(f) = self.fighter {
            let sum: i64 = f.hp as i64 + amount as i64;
            let lifted: i64 = if sum < 0 {
                0
            } else {
                sum
            };
            let new_hp: i32 = if lifted > f.max_hp as i64 {
                f.max_hp
            } else {
                lifted as i32
            };
            self.fighter = Option::Some(Fighter { hp: new_hp, ..f });
        }
    }

    /// Applies damage: hit points go down by `damage` but never below
    /// zero, non-positive damage changes nothing, and the single
    /// transition to zero hit points marks the object dead and runs its
    /// death transformation exactly once.
    pub fn take_damage(&mut self, damage: i32, messages: &mut Messages)
        ensures
            take_damage_state_rel(*old(self), *final(self), damage as int),
            log_extends(old(messages)@, final(messages)@),
            take_damage_msgs_rel(
                *old(self),
                added_msgs(old(messages)@, final(messages)@),
                damage as int,
            ),
    {
        proof {
            crate::log::lemma_log_same(old(messages)@);
        }
        if let Option::Some(f) = self.fighter {
            if damage > 0 {
                if damage >= f.hp {
                    self.fighter = Option::Some(Fighter { hp: 0, ..f });
                    if self.alive {
                        self.alive = false;
                        f.on_death.callback(self, messages);
                    }
                } else {
                    self.fighter = Option::Some(Fighter { hp: f.hp - damage, ..f });
                }
            }
        }
    }

    /// Resolves one melee attack: the damage is the attacker's power less
    /// the target's defense; positive damage is applied to the target,
    /// anything else is logged as having no effect.
    pub fn attack(&mut self, target: &mut Object, log: &mut Messages)
        ensures
            *final(self) == *old(self),
            log_extends(old(log)@, final(log)@),
            attack_rel(
                *old(self),
                *old(target),
                *final(target),
                added_msgs(old(log)@, final(log)@),
            ),
    {
        let power: i64 = match &self.fighter {
            Option::Some(f) => f.power as i64,
            Option::None => 0,
        };
        let defense: i64 = match &target.fighter {
            Option::Some(f) => f.defense as i64,
            Option::None => 0,
        };
        let damage: i64 = power - defense;
        let mut text = self.name.clone();
        text = text.concat(" attacks ");
        text = text.concat(target.name.as_str());
        if damage > 0 {
            text = text.concat(" for ");
            push_u64_dec(&mut text, damage as u64);
            text = text.concat(" hit points.");
            proof {
                assert_seqs_equal!(text@ ==
                    attack_hit_text(old(self).name@, old(target).name@, damage as int));
            }
            log.info(text);
            proof {
                crate::log::lemma_log_push(old(log)@, log@);
            }
            let damage32: i32 = if damage > i32::MAX as i64 {
                i32::MAX
            } else {
                damage as i32
            };
            let ghost log_mid = log@;
            target.take_damage(damage32, log);
            proof {
                crate::log::lemma_log_trans(old(log)@, log_mid, log@);
                assert(added_msgs(old(log)@, log@).skip(1) =~= added_msgs(log_mid, log@));
                assert(added_msgs(old(log)@, log@)[0] == log_mid.last());
            }
        } else {
            text = text.concat(" but whatevs!");
            proof {
                assert_seqs_equal!(text@ ==
                    attack_miss_text(old(self).name@, old(target).name@));
            }
            log.info(text);
            proof {
                crate::log::lemma_log_push(old(log)@, log@);
            }
        }
    }
}

/// Taking damage never moves an object: every case of
/// `take_damage_state_rel` keeps the position.
pub proof fn lemma_damage_keeps_position(o0: Object, o1: Object, damage: int)
    requires
        take_damage_state_rel(o0, o1, damage),
    ensures
        o1.x == o0.x,
        o1.y == o0.y,
{
}

/// Template equality chains: two templates equal to a third agree.
pub proof fn lemma_class_eq_trans(a: ObjectClass, b: ObjectClass, c: ObjectClass)
    requires
        class_eq(a, b),
        class_eq(b, c),
    ensures
        class_eq(a, c),
{
    lemma_inv_like_trans(a.inventory, b.inventory, c.inventory);
}

/// An instance of a template is an instance of every equal template.
pub proof fn lemma_instantiates_class_eq(o: Object, c1: ObjectClass, c2: ObjectClass)
    requires
        instantiates(o, c1),
        class_eq(c1, c2),
    ensures
        instantiates(o, c2),
{
    lemma_inv_like_sym(c1.inventory, c2.inventory);
    lemma_inv_like_trans(c2.inventory, c1.inventory, o.inventory);
}

/// Taking damage never touches what an object carries.
pub proof fn lemma_damage_keeps_inventory(o0: Object, o1: Object, damage: int)
    requires
        take_damage_state_rel(o0, o1, damage),
    ensures
        o1.inventory == o0.inventory,
{
}

/// Being attacked never moves the target.
pub proof fn lemma_attack_keeps_position(
    atk: Object,
    t0: Object,
    t1: Object,
    added: Seq<(String, MessageType)>,
)
    requires
        attack_rel(atk, t0, t1, added),
    ensures
        t1.x == t0.x,
        t1.y == t0.y,
{
    let d = power_of(atk) - defense_of(t0);
    if d > 0 {
        lemma_damage_keeps_position(t0, t1, d);
    }
}

/// Squares of numbers up to a few billion stay well inside an `i128`.
pub(crate) proof fn lemma_small_square(v: int)
    requires
        -5000000000 <= v <= 5000000000,
    ensures
        0 <= v * v <= 25000000000000000000,
{
    assert(0 <= v * v <= 25000000000000000000) by (nonlinear_arith)
        requires
            -5000000000 <= v <= 5000000000,
    ;
}

} // verus!
