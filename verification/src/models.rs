//! Domain records shared by the server and the pages.
//!
//! These mirror the database tables. Integers are `i64` throughout, the way the
//! database hands them back.
use vstd::prelude::*;

use crate::json::{decode_keys, decoded_list, list_contains};
use crate::rules::{
    self, modifier_spec, proficiency_spec, save_bonus_spec, skill_ability, skill_ability_spec,
    skill_bonus_spec, Ability,
};
use crate::text::{same_text, text_before, text_less};

verus! {

#[derive(Debug, Clone)]
pub struct Party {
    pub id: String,
    pub owner_id: Option<String>,
    pub name: String,
    pub notes: String,
    pub gold: i64,
    pub created_at: String,
}

#[derive(Debug, Clone)]
pub struct Character {
    pub id: String,
    pub party_id: Option<String>,
    pub owner_id: Option<String>,
    pub name: String,
    pub player_name: String,
    pub class: String,
    pub subclass: String,
    pub race: String,
    pub background: String,
    pub alignment: String,
    pub level: i64,
    pub xp: i64,
    pub str_score: i64,
    pub dex_score: i64,
    pub con_score: i64,
    pub int_score: i64,
    pub wis_score: i64,
    pub cha_score: i64,
    pub hp_max: i64,
    pub hp_current: i64,
    pub hp_temp: i64,
    pub armor_class: i64,
    pub speed: i64,
    pub hit_dice: String,
    pub death_save_successes: i64,
    pub death_save_failures: i64,
    pub inspiration: i64,
    pub skill_proficiencies: String,
    pub skill_expertise: String,
    pub save_proficiencies: String,
    pub notes: String,
    pub is_active: i64,
    pub created_at: String,
    pub updated_at: String,
}

impl Character {
    pub open spec fn spec_ability_score(&self, ability: Ability) -> i64 {
        match ability {
            Ability::Str => self.str_score,
            Ability::Dex => self.dex_score,
            Ability::Con => self.con_score,
            Ability::Int => self.int_score,
            Ability::Wis => self.wis_score,
            Ability::Cha => self.cha_score,
        }
    }

    /// The skill keys this character is proficient in.
    pub open spec fn spec_skill_proficiencies(&self) -> Seq<Seq<char>> {
        decoded_list(self.skill_proficiencies@)
    }

    /// The skill keys this character has expertise in.
    pub open spec fn spec_skill_expertise(&self) -> Seq<Seq<char>> {
        decoded_list(self.skill_expertise@)
    }

    /// The ability keys this character is proficient in saving throws for.
    pub open spec fn spec_save_proficiencies(&self) -> Seq<Seq<char>> {
        decoded_list(self.save_proficiencies@)
    }

    /// The bonus for the skill with key `key`, if there is such a skill.
    pub open spec fn spec_skill_bonus(&self, key: Seq<char>) -> Option<int> {
        match skill_ability_spec(key) {
            None => None,
            Some(a) => Some(
                skill_bonus_spec(
                    self.spec_ability_score(a) as int,
                    self.level as int,
                    self.spec_skill_proficiencies().contains(key),
                    self.spec_skill_expertise().contains(key),
                ),
            ),
        }
    }

    pub fn ability_score(&self, ability: Ability) -> (s: i64)
        ensures
            s == self.spec_ability_score(ability),
            ability == Ability::Str ==> s == self.str_score,
            ability == Ability::Dex ==> s == self.dex_score,
            ability == Ability::Con ==> s == self.con_score,
            ability == Ability::Int ==> s == self.int_score,
            ability == Ability::Wis ==> s == self.wis_score,
            ability == Ability::Cha ==> s == self.cha_score,
    {
        match ability {
            Ability::Str => self.str_score,
            Ability::Dex => self.dex_score,
            Ability::Con => self.con_score,
            Ability::Int => self.int_score,
            Ability::Wis => self.wis_score,
            Ability::Cha => self.cha_score,
        }
    }

    pub fn ability_modifier(&self, ability: Ability) -> (m: i64)
        requires
            self.spec_ability_score(ability) >= i64::MIN + 10,
        ensures
            m == modifier_spec(self.spec_ability_score(ability) as int),
    {
        rules::ability_modifier(self.ability_score(ability))
    }

    pub fn proficiency_bonus(&self) -> (p: i64)
        ensures
            p == proficiency_spec(self.level as int),
    {
        rules::proficiency_bonus(self.level)
    }

    pub fn skill_proficiency_keys(&self) -> (keys: Vec<String>)
        ensures
            keys.deep_view() == self.spec_skill_proficiencies(),
    {
        decode_keys(self.skill_proficiencies.as_str())
    }

    pub fn skill_expertise_keys(&self) -> (keys: Vec<String>)
        ensures
            keys.deep_view() == self.spec_skill_expertise(),
    {
        decode_keys(self.skill_expertise.as_str())
    }

    pub fn save_proficiency_keys(&self) -> (keys: Vec<String>)
        ensures
            keys.deep_view() == self.spec_save_proficiencies(),
    {
        decode_keys(self.save_proficiencies.as_str())
    }

    pub fn is_skill_proficient(&self, skill_key: &str) -> (b: bool)
        ensures
            b == self.spec_skill_proficiencies().contains(skill_key@),
    {
        list_contains(&self.skill_proficiency_keys(), skill_key)
    }

    pub fn has_expertise(&self, skill_key: &str) -> (b: bool)
        ensures
            b == self.spec_skill_expertise().contains(skill_key@),
    {
        list_contains(&self.skill_expertise_keys(), skill_key)
    }

    pub fn is_save_proficient(&self, ability: Ability) -> (b: bool)
        ensures
            b == self.spec_save_proficiencies().contains(ability.spec_key()),
    {
        list_contains(&self.save_proficiency_keys(), ability.key())
    }

    pub fn skill_bonus(&self, skill_key: &str) -> (b: Option<i64>)
        requires
            skill_ability_spec(skill_key@) matches Some(a) ==> self.spec_ability_score(a)
                >= i64::MIN + 10,
        ensures
            b matches Some(v) ==> self.spec_skill_bonus(skill_key@) == Some(v as int),
            b is None <==> self.spec_skill_bonus(skill_key@) is None,
    {
        match skill_ability(skill_key) {
            None => None,
            Some(ability) => Some(
                rules::skill_bonus(
                    self.ability_score(ability),
                    self.level,
                    self.is_skill_proficient(skill_key),
                    self.has_expertise(skill_key),
                ),
            ),
        }
    }

    pub fn save_bonus(&self, ability: Ability) -> (b: i64)
        requires
            self.spec_ability_score(ability) >= i64::MIN + 10,
        ensures
            b == save_bonus_spec(
                self.spec_ability_score(ability) as int,
                self.level as int,
                self.spec_save_proficiencies().contains(ability.spec_key()),
            ),
    {
        rules::save_bonus(
            self.ability_score(ability),
            self.level,
            self.is_save_proficient(ability),
        )
    }

    pub fn initiative_bonus(&self) -> (b: i64)
        requires
            self.dex_score >= i64::MIN + 10,
        ensures
            b == modifier_spec(self.dex_score as int),
    {
        self.ability_modifier(Ability::Dex)
    }

    pub fn passive_perception(&self) -> (p: i64)
        requires
            self.wis_score >= i64::MIN + 10,
        ensures
            p == 10 + skill_bonus_spec(
                self.wis_score as int,
                self.level as int,
                self.spec_skill_proficiencies().contains("perception"@),
                self.spec_skill_expertise().contains("perception"@),
            ),
    {
        proof {
            rules::lemma_perception_keys_off_wisdom();
        }
        let bonus = match self.skill_bonus("perception") {
            Some(b) => b,
            None => 0,
        };
        rules::passive_score(bonus)
    }

    /// Effective HP including temporary hit points.
    pub fn effective_hp(&self) -> (hp: i64)
        requires
            i64::MIN <= self.hp_current + self.hp_temp <= i64::MAX,
        ensures
            hp == self.hp_current + self.hp_temp,
    {
        self.hp_current + self.hp_temp
    }

    pub fn is_unconscious(&self) -> (b: bool)
        ensures
            b == (self.hp_current <= 0),
    {
        self.hp_current <= 0
    }
}

#[derive(Debug, Clone)]
pub struct Location {
    pub id: String,
    pub name: String,
    pub kind: String,
    pub parent_id: Option<String>,
    pub description: String,
    pub discovered: i64,
}

#[derive(Debug, Clone)]
pub struct Faction {
    pub id: String,
    pub name: String,
    pub description: String,
    pub attitude: i64,
}

#[derive(Debug, Clone)]
pub struct Npc {
    pub id: String,
    pub name: String,
    pub race: String,
    pub role: String,
    pub location_id: Option<String>,
    pub faction_id: Option<String>,
    pub attitude: i64,
    pub armor_class: i64,
    pub hp_max: i64,
    pub challenge_rating: String,
    pub description: String,
    pub secrets: String,
    pub alive: i64,
}

/// How an NPC or faction feels about the party, bucketed for display.
pub open spec fn attitude_label_spec(attitude: int) -> Seq<char> {
    if attitude >= 60 {
        "Devoted"@
    } else if attitude >= 25 {
        "Friendly"@
    } else if attitude > -25 {
        "Neutral"@
    } else if attitude > -60 {
        "Unfriendly"@
    } else {
        "Hostile"@
    }
}

/// How an NPC or faction feels about the party, bucketed for display.
pub fn attitude_label(attitude: i64) -> (l: &'static str)
    ensures
        l@ == attitude_label_spec(attitude as int),
{
    if attitude >= 60 {
        "Devoted"
    } else if attitude >= 25 {
        "Friendly"
    } else if attitude > -25 {
        "Neutral"
    } else if attitude > -60 {
        "Unfriendly"
    } else {
        "Hostile"
    }
}

#[derive(Debug, Clone)]
pub struct Quest {
    pub id: String,
    pub party_id: Option<String>,
    pub title: String,
    pub status: String,
    pub description: String,
    pub reward: String,
    pub giver_npc_id: Option<String>,
    pub location_id: Option<String>,
    pub created_at: String,
    pub completed_at: Option<String>,
}

pub const QUEST_STATUSES: [&'static str; 4] = ["active", "completed", "failed", "rumor"];

#[derive(Debug, Clone)]
pub struct GameSession {
    pub id: String,
    pub party_id: Option<String>,
    pub session_number: i64,
    pub played_on: String,
    pub title: String,
    pub summary: String,
    pub notes: String,
    pub xp_awarded: i64,
}

#[derive(Debug, Clone)]
pub struct Encounter {
    pub id: String,
    pub party_id: Option<String>,
    pub name: String,
    pub round: i64,
    pub turn_index: i64,
    pub status: String,
    pub created_at: String,
}

#[derive(Debug, Clone)]
pub struct Combatant {
    pub id: String,
    pub encounter_id: String,
    pub character_id: Option<String>,
    pub name: String,
    pub initiative: i64,
    pub dex_score: i64,
    pub hp_max: i64,
    pub hp_current: i64,
    pub hp_temp: i64,
    pub armor_class: i64,
    pub conditions: String,
    pub concentrating: i64,
    pub is_pc: i64,
    pub notes: String,
}

impl Combatant {
    /// The conditions on this combatant.
    pub open spec fn spec_conditions(&self) -> Seq<Seq<char>> {
        decoded_list(self.conditions@)
    }

    pub fn condition_list(&self) -> (c: Vec<String>)
        ensures
            c.deep_view() == self.spec_conditions(),
    {
        decode_keys(self.conditions.as_str())
    }

    pub fn has_condition(&self, condition: &str) -> (b: bool)
        ensures
            b == self.spec_conditions().contains(condition@),
    {
        list_contains(&self.condition_list(), condition)
    }

    pub fn is_down(&self) -> (b: bool)
        ensures
            b == (self.hp_current <= 0),
    {
        self.hp_current <= 0
    }
}

/// Each ability reads its own column of the sheet, and its modifier is half
/// the score's distance from 10, rounded down.
pub proof fn lemma_ability_columns(c: Character)
    ensures
        c.spec_ability_score(Ability::Str) == c.str_score,
        c.spec_ability_score(Ability::Dex) == c.dex_score,
        c.spec_ability_score(Ability::Con) == c.con_score,
        c.spec_ability_score(Ability::Int) == c.int_score,
        c.spec_ability_score(Ability::Wis) == c.wis_score,
        c.spec_ability_score(Ability::Cha) == c.cha_score,
        forall|a: Ability|
            2 * modifier_spec(#[trigger] c.spec_ability_score(a) as int) <= c.spec_ability_score(a) - 10
                < 2 * modifier_spec(c.spec_ability_score(a) as int) + 2,
{
}

// ---------------------------------------------------------- initiative order

/// `a` acts before `b`: higher initiative first, then higher Dexterity, then
/// name in text order.
pub open spec fn goes_before(a: Combatant, b: Combatant) -> bool {
    ||| a.initiative > b.initiative
    ||| a.initiative == b.initiative && a.dex_score > b.dex_score
    ||| a.initiative == b.initiative && a.dex_score == b.dex_score && text_less(a.name@, b.name@)
}

/// `a` and `b` tie on every sort key.
pub open spec fn same_rank(a: Combatant, b: Combatant) -> bool {
    a.initiative == b.initiative && a.dex_score == b.dex_score && a.name@ == b.name@
}

/// The combatants that tie with `c` on every sort key.
pub open spec fn rank_of(c: Combatant) -> spec_fn(Combatant) -> bool {
    |x: Combatant| same_rank(x, c)
}

/// No combatant is preceded by one that should act after it.
pub open spec fn in_initiative_order(s: Seq<Combatant>) -> bool {
    forall|i: int, j: int| 0 <= i < j < s.len() ==> !goes_before(#[trigger] s[j], #[trigger] s[i])
}

/// Acting before is never mutual.
pub proof fn lemma_goes_before_asymmetric(a: Combatant, b: Combatant)
    ensures
        goes_before(a, b) ==> !goes_before(b, a),
{
    if goes_before(a, b) && goes_before(b, a) {
        crate::text::lemma_text_less_transitive(a.name@, b.name@, a.name@);
        crate::text::lemma_text_less_irreflexive(a.name@);
    }
}

/// If `c` acts before `a`, then any `b` either comes after `c` or before `a`.
pub proof fn lemma_goes_before_split(a: Combatant, b: Combatant, c: Combatant)
    requires
        goes_before(c, a),
    ensures
        goes_before(c, b) || goes_before(b, a),
{
    crate::text::lemma_text_less_total(b.name@, c.name@);
    if text_less(b.name@, c.name@) && text_less(c.name@, a.name@) {
        crate::text::lemma_text_less_transitive(b.name@, c.name@, a.name@);
    }
}

/// Initiative decides first: a higher initiative always acts first, and
/// Dexterity decides only between equal initiatives, the higher acting first.
/// Whoever acts first never has the lower initiative.
pub proof fn lemma_initiative_decides_first(a: Combatant, b: Combatant)
    ensures
        a.initiative > b.initiative ==> goes_before(a, b),
        a.initiative == b.initiative && a.dex_score > b.dex_score ==> goes_before(a, b),
        goes_before(a, b) ==> a.initiative >= b.initiative,
        goes_before(a, b) && a.initiative == b.initiative ==> a.dex_score >= b.dex_score,
{
}

/// In initiative order, initiative never rises down the list, and among equal
/// initiatives Dexterity never rises.
pub proof fn lemma_initiative_order_descends(s: Seq<Combatant>)
    requires
        in_initiative_order(s),
    ensures
        forall|i: int, j: int|
            0 <= i < j < s.len() ==> (#[trigger] s[i]).initiative >= (#[trigger] s[j]).initiative,
        forall|i: int, j: int|
            0 <= i < j < s.len() && (#[trigger] s[i]).initiative == (#[trigger] s[j]).initiative
                ==> s[i].dex_score >= s[j].dex_score,
{
    assert forall|i: int, j: int| 0 <= i < j < s.len() implies (#[trigger] s[i]).initiative
        >= (#[trigger] s[j]).initiative by {
        assert(!goes_before(s[j], s[i]));
    }
    assert forall|i: int, j: int|
        0 <= i < j < s.len() && (#[trigger] s[i]).initiative == (#[trigger] s[j]).initiative
            implies s[i].dex_score >= s[j].dex_score by {
        assert(!goes_before(s[j], s[i]));
    }
}

/// Whether `a` acts before `b`.
pub fn acts_before(a: &Combatant, b: &Combatant) -> (r: bool)
    ensures
        r == goes_before(*a, *b),
{
    if a.initiative != b.initiative {
        a.initiative > b.initiative
    } else if a.dex_score != b.dex_score {
        a.dex_score > b.dex_score
    } else {
        text_before(a.name.as_str(), b.name.as_str())
    }
}

/// Exchanges two entries of a slice.
/// Trusted: `<[T]>::swap` exchanges the two entries and leaves the rest in
/// place; it panics on an index out of bounds, which `requires` rules out.
#[verifier::external_body]
fn swap_entries<T>(s: &mut [T], i: usize, j: usize)
    requires
        i < old(s)@.len(),
        j < old(s)@.len(),
    ensures
        final(s)@ == old(s)@.update(i as int, old(s)@[j as int]).update(j as int, old(s)@[i as int]),
{
    s.swap(i, j);
}

proof fn lemma_swap_adjacent_keeps_rank(s: Seq<Combatant>, k: int, c: Combatant)
    requires
        0 < k < s.len(),
        goes_before(s[k], s[k - 1]),
    ensures
        s.update(k - 1, s[k]).update(k, s[k - 1]).filter(rank_of(c)) == s.filter(rank_of(c)),
{
    let t = s.update(k - 1, s[k]).update(k, s[k - 1]);
    let p = rank_of(c);
    let front = s.take(k - 1);
    let back = s.skip(k + 1);
    let pair = seq![s[k - 1], s[k]];
    let swapped = seq![s[k], s[k - 1]];
    assert(s =~= front + pair + back);
    assert(t =~= front + swapped + back);
    Seq::filter_distributes_over_add(front + pair, back, p);
    Seq::filter_distributes_over_add(front, pair, p);
    Seq::filter_distributes_over_add(front + swapped, back, p);
    Seq::filter_distributes_over_add(front, swapped, p);
    reveal_with_fuel(Seq::filter, 3);
    assert(pair.drop_last() =~= seq![s[k - 1]]);
    assert(swapped.drop_last() =~= seq![s[k]]);
    assert(seq![s[k - 1]].drop_last() =~= Seq::<Combatant>::empty());
    assert(seq![s[k]].drop_last() =~= Seq::<Combatant>::empty());
    assert(!(p(s[k - 1]) && p(s[k]))) by {
        if p(s[k - 1]) && p(s[k]) {
            crate::text::lemma_text_less_irreflexive(s[k].name@);
        }
    }
    assert(pair.filter(p) =~= swapped.filter(p));
}

proof fn lemma_swap_keeps_multiset(s: Seq<Combatant>, i: int, j: int)
    requires
        0 <= i < s.len(),
        0 <= j < s.len(),
    ensures
        s.update(i, s[j]).update(j, s[i]).to_multiset() =~= s.to_multiset(),
{
    broadcast use vstd::seq_lib::group_to_multiset_ensures;

    let u = s.update(i, s[j]);
    assert(u[j] == if i == j {
        s[i]
    } else {
        s[j]
    });
}

/// Initiative order: highest initiative first, ties broken by Dexterity, then
/// by name so the order is stable across reloads. Combatants that tie on all
/// three keep the order they came in.
pub fn sort_initiative(combatants: &mut [Combatant])
    ensures
        in_initiative_order(final(combatants)@),
        forall|i: int, j: int|
            0 <= i < j < final(combatants)@.len() ==> (#[trigger] final(combatants)@[i]).initiative
                >= (#[trigger] final(combatants)@[j]).initiative,
        final(combatants)@.to_multiset() == old(combatants)@.to_multiset(),
        forall|c: Combatant|
            #![trigger rank_of(c)]
            final(combatants)@.filter(rank_of(c)) == old(combatants)@.filter(rank_of(c)),
{
    let ghost start = combatants@;
    let n = combatants.len();
    if n == 0 {
        return;
    }
    let mut i: usize = 1;
    while i < n
        invariant
            1 <= i <= n,
            n == combatants@.len(),
            forall|a: int, b: int|
                0 <= a < b < i ==> !goes_before(#[trigger] combatants@[b], #[trigger] combatants@[a]),
            combatants@.to_multiset() == start.to_multiset(),
            forall|c: Combatant|
                #![trigger rank_of(c)]
                combatants@.filter(rank_of(c)) == start.filter(rank_of(c)),
        decreases n - i,
    {
        let mut k: usize = i;
        while k > 0 && acts_before(&combatants[k], &combatants[k - 1])
            invariant
                0 <= k <= i < n,
                n == combatants@.len(),
                forall|a: int, b: int|
                    0 <= a < b <= i && a != k && b != k ==> !goes_before(
                        #[trigger] combatants@[b],
                        #[trigger] combatants@[a],
                    ),
                forall|b: int| k < b <= i ==> goes_before(combatants@[k as int], #[trigger] combatants@[b]),
                combatants@.to_multiset() == start.to_multiset(),
                forall|c: Combatant|
                    #![trigger rank_of(c)]
                    combatants@.filter(rank_of(c)) == start.filter(rank_of(c)),
            decreases k,
        {
            let ghost before = combatants@;
            proof {
                lemma_swap_keeps_multiset(before, k - 1, k as int);
                assert forall|c: Combatant|
                    #![trigger rank_of(c)]
                    before.update(k - 1, before[k as int]).update(k as int, before[k - 1]).filter(
                        rank_of(c),
                    ) == before.filter(rank_of(c)) by {
                    lemma_swap_adjacent_keeps_rank(before, k as int, c);
                }
            }
            swap_entries(combatants, k - 1, k);
            proof {
                let after = combatants@;
                assert forall|a: int, b: int|
                    0 <= a < b <= i && a != k - 1 && b != k - 1 implies !goes_before(
                        #[trigger] after[b],
                        #[trigger] after[a],
                    ) by {
                    if b == k {
                        assert(after[b] == before[k - 1]);
                        assert(after[a] == before[a]);
                    } else if a == k {
                        assert(after[a] == before[k - 1]);
                        assert(after[b] == before[b]);
                    } else {
                        assert(after[a] == before[a]);
                        assert(after[b] == before[b]);
                    }
                }
                assert forall|b: int| k - 1 < b <= i implies goes_before(
                    after[k - 1],
                    #[trigger] after[b],
                ) by {
                    assert(after[k - 1] == before[k as int]);
                    if b == k {
                        assert(after[b] == before[k - 1]);
                    } else {
                        assert(after[b] == before[b]);
                    }
                }
            }
            k = k - 1;
        }
        proof {
            let s = combatants@;
            assert forall|a: int, b: int| 0 <= a < b < i + 1 implies !goes_before(
                #[trigger] s[b],
                #[trigger] s[a],
            ) by {
                if b == k {
                    if goes_before(s[k as int], s[a]) {
                        lemma_goes_before_split(s[a], s[k - 1], s[k as int]);
                        if a != k - 1 {
                            assert(!goes_before(s[k - 1], s[a]));
                        }
                    }
                } else if a == k {
                    lemma_goes_before_asymmetric(s[a], s[b]);
                }
            }
        }
        i = i + 1;
    }
    proof {
        lemma_initiative_order_descends(combatants@);
    }
}

// ---------------------------------------------------------------- overview

/// The sum of the characters' levels.
pub open spec fn level_sum(s: Seq<Character>) -> int
    decreases s.len(),
{
    if s.len() == 0 {
        0
    } else {
        level_sum(s.drop_last()) + s.last().level
    }
}

/// Whether a character is at 0 HP or below.
pub open spec fn is_down_character() -> spec_fn(Character) -> bool {
    |c: Character| c.hp_current <= 0
}

/// Integer division that truncates toward zero, as Rust's `/` does.
pub open spec fn div_toward_zero(a: int, b: int) -> int {
    if a >= 0 {
        a / b
    } else {
        -((-a) / b)
    }
}

/// The party line on the overview: how many characters there are, their
/// average level (rounded toward zero), and how many are down.
pub fn party_summary(characters: &Vec<Character>) -> (r: (usize, i64, usize))
    requires
        characters.len() > 0,
        forall|i: int|
            0 <= i <= characters.len() ==> i64::MIN <= #[trigger] level_sum(characters@.take(i))
                <= i64::MAX,
    ensures
        r.0 == characters.len(),
        r.1 == div_toward_zero(level_sum(characters@), characters.len() as int),
        r.2 == characters@.filter(is_down_character()).len(),
{
    let ghost all = characters@;
    let ghost p = is_down_character();
    let mut sum: i64 = 0;
    let mut down: usize = 0;
    let mut i: usize = 0;
    while i < characters.len()
        invariant
            i <= characters.len(),
            all == characters@,
            p == is_down_character(),
            sum == level_sum(all.take(i as int)),
            down == all.take(i as int).filter(p).len(),
            forall|j: int|
                0 <= j <= characters.len() ==> i64::MIN <= #[trigger] level_sum(all.take(j))
                    <= i64::MAX,
        decreases characters.len() - i,
    {
        proof {
            assert(all.take(i + 1).drop_last() =~= all.take(i as int));
            assert(all.take(i + 1) =~= all.take(i as int).push(all[i as int]));
            all.take(i as int).lemma_filter_push(all[i as int], p);
            assert(i64::MIN <= level_sum(all.take(i + 1)) <= i64::MAX);
        }
        sum = sum + characters[i].level;
        if characters[i].hp_current <= 0 {
            down = down + 1;
        }
        i = i + 1;
    }
    assert(all.take(all.len() as int) =~= all);
    let n = characters.len() as u64;
    let avg: i64 = if sum >= 0 {
        ((sum as u64) / n) as i64
    } else {
        let magnitude: u64 = if sum == i64::MIN {
            9223372036854775808u64
        } else {
            (-sum) as u64
        };
        let q = magnitude / n;
        if q == 9223372036854775808u64 {
            i64::MIN
        } else {
            -(q as i64)
        }
    };
    (characters.len(), avg, down)
}

/// Whether a quest is on the active list.
pub open spec fn is_active_quest() -> spec_fn(Quest) -> bool {
    |q: Quest| q.status@ == "active"@
}

/// At most the first `n` entries of `s`.
pub open spec fn first_at_most<T>(s: Seq<T>, n: int) -> Seq<T> {
    if n < s.len() {
        s.take(n)
    } else {
        s
    }
}

/// The quests shown on the overview board: the first `limit` active ones, in
/// the order given.
pub fn active_quests(quests: Vec<Quest>, limit: usize) -> (out: Vec<Quest>)
    ensures
        out@ == first_at_most(quests@.filter(is_active_quest()), limit as int),
{
    let ghost all = quests@;
    let ghost p = is_active_quest();
    let mut out: Vec<Quest> = Vec::new();
    for q in it: quests
        invariant
            it.seq() == all,
            p == is_active_quest(),
            out@ == first_at_most(all.take(it.index() as int).filter(p), limit as int),
            out.len() <= limit,
    {
        let ghost i = it.index() as int;
        let ghost before = all.take(i).filter(p);
        proof {
            assert(all.take(i + 1) =~= all.take(i).push(all[i]));
            all.take(i).lemma_filter_push(all[i], p);
        }
        if out.len() < limit && same_text(q.status.as_str(), "active") {
            out.push(q);

        } else {
            proof {
                if p(all[i]) {
                    assert(first_at_most(before.push(all[i]), limit as int) =~= first_at_most(
                        before,
                        limit as int,
                    ));
                }
            }
        }
    }
    assert(all.take(all.len() as int) =~= all);
    out
}

} // verus!
