//! 5e rules math: ability modifiers, proficiency, skills, saves, XP levels.
use vstd::prelude::*;

use crate::text::{decimal, push_char, push_decimal, same_text, signed_decimal};

verus! {

/// The six ability scores, in the canonical sheet order.
#[derive(Debug, Clone, Copy, PartialEq, Eq, Structural)]
pub enum Ability {
    Str,
    Dex,
    Con,
    Int,
    Wis,
    Cha,
}


impl Ability {
    /// All six, in the canonical sheet order.
    pub const ALL: [Ability; 6] = [
        Ability::Str,
        Ability::Dex,
        Ability::Con,
        Ability::Int,
        Ability::Wis,
        Ability::Cha,
    ];

    pub open spec fn spec_key(self) -> Seq<char> {
        match self {
            Ability::Str => "str"@,
            Ability::Dex => "dex"@,
            Ability::Con => "con"@,
            Ability::Int => "int"@,
            Ability::Wis => "wis"@,
            Ability::Cha => "cha"@,
        }
    }

    pub open spec fn spec_label(self) -> Seq<char> {
        match self {
            Ability::Str => "Strength"@,
            Ability::Dex => "Dexterity"@,
            Ability::Con => "Constitution"@,
            Ability::Int => "Intelligence"@,
            Ability::Wis => "Wisdom"@,
            Ability::Cha => "Charisma"@,
        }
    }

    /// Stable key used in JSON columns and form fields.
    pub fn key(self) -> (k: &'static str)
        ensures
            k@ == self.spec_key(),
    {
        match self {
            Ability::Str => "str",
            Ability::Dex => "dex",
            Ability::Con => "con",
            Ability::Int => "int",
            Ability::Wis => "wis",
            Ability::Cha => "cha",
        }
    }

    pub fn label(self) -> (l: &'static str)
        ensures
            l@ == self.spec_label(),
    {
        match self {
            Ability::Str => "Strength",
            Ability::Dex => "Dexterity",
            Ability::Con => "Constitution",
            Ability::Int => "Intelligence",
            Ability::Wis => "Wisdom",
            Ability::Cha => "Charisma",
        }
    }

    /// The ability whose key is `key`, if any.
    pub fn from_key(key: &str) -> (r: Option<Ability>)
        ensures
            r == ability_for_key(key@),
    {
        let mut i: usize = 0;
        while i < 6
            invariant
                i <= 6,
                forall|j: int| 0 <= j < i ==> Ability::ALL[j].spec_key() != key@,
            decreases 6 - i,
        {
            let a = Ability::ALL[i];
            if same_text(a.key(), key) {
                proof {
                    lemma_ability_keys_distinct();
                }
                return Some(a);
            }
            i = i + 1;
        }
        proof {
            assert forall|a: Ability| a.spec_key() != key@ by {
                assert(Ability::ALL[ability_index(a)] == a);
            }
        }
        None
    }
}

pub open spec fn ability_index(a: Ability) -> int {
    match a {
        Ability::Str => 0,
        Ability::Dex => 1,
        Ability::Con => 2,
        Ability::Int => 3,
        Ability::Wis => 4,
        Ability::Cha => 5,
    }
}

/// The ability with key `key`, if there is one.
pub open spec fn ability_for_key(key: Seq<char>) -> Option<Ability> {
    if exists|a: Ability| a.spec_key() == key {
        Some(choose|a: Ability| a.spec_key() == key)
    } else {
        None
    }
}

/// No two abilities share a key.
pub proof fn lemma_ability_keys_distinct()
    ensures
        forall|a: Ability, b: Ability| a.spec_key() == b.spec_key() ==> a == b,
{
    reveal_strlit("str");
    reveal_strlit("dex");
    reveal_strlit("con");
    reveal_strlit("int");
    reveal_strlit("wis");
    reveal_strlit("cha");
    assert forall|a: Ability, b: Ability| a.spec_key() == b.spec_key() implies a == b by {
        if a != b {
            assert(a.spec_key()[0] != b.spec_key()[0] || a.spec_key()[1] != b.spec_key()[1]);
        }
    }
}

/// Looking up an ability by its own key finds that ability.
pub proof fn lemma_ability_key_round_trip(a: Ability)
    ensures
        ability_for_key(a.spec_key()) == Some(a),
{
    lemma_ability_keys_distinct();
}

// ------------------------------------------------------------- arithmetic

/// `floor((score - 10) / 2)`.
pub open spec fn modifier_spec(score: int) -> int {
    (score - 10) / 2
}

pub open spec fn clamp_spec(x: int, lo: int, hi: int) -> int {
    if x < lo {
        lo
    } else if x > hi {
        hi
    } else {
        x
    }
}

/// +2 at levels 1-4, one more every four levels, with the level held to 1..=20.
pub open spec fn proficiency_spec(level: int) -> int {
    2 + (clamp_spec(level, 1, 20) - 1) / 4
}

pub open spec fn skill_bonus_spec(score: int, level: int, proficient: bool, expert: bool) -> int {
    modifier_spec(score) + proficiency_spec(level) * (if expert {
        2int
    } else if proficient {
        1int
    } else {
        0int
    })
}

pub open spec fn save_bonus_spec(score: int, level: int, proficient: bool) -> int {
    modifier_spec(score) + if proficient {
        proficiency_spec(level)
    } else {
        0
    }
}

/// `floor((score - 10) / 2)`, correct for scores below 10 where naive integer
/// division truncates toward zero instead of down.
pub fn ability_modifier(score: i64) -> (m: i64)
    requires
        score >= i64::MIN + 10,
    ensures
        m == modifier_spec(score as int),
{
    let d = score - 10;
    if d >= 0 {
        d / 2
    } else {
        let m = -(d + 1);
        -(m / 2) - 1
    }
}

/// Holds `x` to `lo..=hi`.
pub fn clamp(x: i64, lo: i64, hi: i64) -> (r: i64)
    requires
        lo <= hi,
    ensures
        r == clamp_spec(x as int, lo as int, hi as int),
{
    if x < lo {
        lo
    } else if x > hi {
        hi
    } else {
        x
    }
}

/// Proficiency bonus by character level: +2 at 1-4, rising every 4 levels.
pub fn proficiency_bonus(level: i64) -> (p: i64)
    ensures
        p == proficiency_spec(level as int),
        2 <= p <= 6,
{
    2 + (clamp(level, 1, 20) - 1) / 4
}

/// Skill check bonus, accounting for proficiency and expertise (double prof).
pub fn skill_bonus(score: i64, level: i64, proficient: bool, expert: bool) -> (b: i64)
    requires
        score >= i64::MIN + 10,
    ensures
        b == skill_bonus_spec(score as int, level as int, proficient, expert),
{
    let pb = proficiency_bonus(level);
    let mult: i64 = if expert {
        2
    } else if proficient {
        1
    } else {
        0
    };
    ability_modifier(score) + pb * mult
}

/// Saving throw bonus.
pub fn save_bonus(score: i64, level: i64, proficient: bool) -> (b: i64)
    requires
        score >= i64::MIN + 10,
    ensures
        b == save_bonus_spec(score as int, level as int, proficient),
{
    ability_modifier(score) + if proficient {
        proficiency_bonus(level)
    } else {
        0
    }
}

/// Passive score for a skill: 10 + the skill bonus.
pub fn passive_score(skill_bonus: i64) -> (p: i64)
    requires
        skill_bonus <= i64::MAX - 10,
    ensures
        p == skill_bonus + 10,
{
    10 + skill_bonus
}

/// XP thresholds for levels 1-20 (5e PHB).
pub const XP_THRESHOLDS: [i64; 20] = [
    0,
    300,
    900,
    2700,
    6500,
    14000,
    23000,
    34000,
    48000,
    64000,
    85000,
    100000,
    120000,
    140000,
    165000,
    195000,
    225000,
    265000,
    305000,
    355000,
];

/// The highest of the first `n` levels whose threshold `xp` reaches, or 1.
pub open spec fn level_reached(xp: int, n: int) -> int
    decreases n,
{
    if n <= 0 {
        1
    } else if xp >= XP_THRESHOLDS[n - 1] {
        n
    } else {
        level_reached(xp, n - 1)
    }
}

/// The level a given XP total earns.
pub open spec fn level_for_xp_spec(xp: int) -> int {
    level_reached(xp, 20)
}

proof fn lemma_level_reached_bounds(xp: int, n: int)
    requires
        0 <= n <= 20,
    ensures
        1 <= level_reached(xp, n) <= if n == 0 {
            1
        } else {
            n
        },
    decreases n,
{
    if n > 0 {
        lemma_level_reached_bounds(xp, n - 1);
    }
}

/// The level a given XP total earns.
pub fn level_for_xp(xp: i64) -> (level: i64)
    ensures
        level == level_for_xp_spec(xp as int),
        1 <= level <= 20,
{
    let mut level: i64 = 1;
    let mut i: usize = 0;
    while i < 20
        invariant
            i <= 20,
            level == level_reached(xp as int, i as int),
        decreases 20 - i,
    {
        if xp >= XP_THRESHOLDS[i] {
            level = i as i64 + 1;
        }
        i = i + 1;
    }
    proof {
        lemma_level_reached_bounds(xp as int, 20);
    }
    level
}

/// Each level's threshold is above the one before it.
pub proof fn lemma_thresholds_increase(i: int, j: int)
    requires
        0 <= i < j < 20,
    ensures
        XP_THRESHOLDS[i] < XP_THRESHOLDS[j],
{
}

/// The level earned is the one whose threshold `xp` reaches while the next
/// level's threshold is still out of reach.
pub proof fn lemma_level_for_xp_brackets(xp: int)
    ensures
        ({
            let l = level_for_xp_spec(xp);
            &&& 1 <= l <= 20
            &&& (l == 1 || xp >= XP_THRESHOLDS[l - 1])
            &&& (l == 20 || xp < XP_THRESHOLDS[l])
        }),
{
    lemma_level_reached_bounds(xp, 20);
    lemma_level_reached_brackets(xp, 20);
}

proof fn lemma_level_reached_brackets(xp: int, n: int)
    requires
        0 <= n <= 20,
    ensures
        ({
            let l = level_reached(xp, n);
            &&& (l == 1 || xp >= XP_THRESHOLDS[l - 1])
            &&& (l >= n || xp < XP_THRESHOLDS[l])
        }),
    decreases n,
{
    if n > 0 {
        lemma_level_reached_brackets(xp, n - 1);
        lemma_level_reached_bounds(xp, n - 1);
        let l = level_reached(xp, n - 1);
        if xp < XP_THRESHOLDS[n - 1] && l < n - 1 {
            lemma_thresholds_increase(l, n - 1);
        }
    }
}

/// More XP never means a lower level.
pub proof fn lemma_level_for_xp_monotonic(a: int, b: int)
    requires
        a <= b,
    ensures
        level_for_xp_spec(a) <= level_for_xp_spec(b),
{
    lemma_level_reached_monotonic(a, b, 20);
}

proof fn lemma_level_reached_monotonic(a: int, b: int, n: int)
    requires
        a <= b,
        0 <= n <= 20,
    ensures
        level_reached(a, n) <= level_reached(b, n),
    decreases n,
{
    if n > 0 {
        lemma_level_reached_monotonic(a, b, n - 1);
        lemma_level_reached_bounds(a, n - 1);
        lemma_level_reached_bounds(b, n - 1);
    }
}

/// A bonus the way a sheet shows it: always signed.
pub open spec fn format_bonus_spec(bonus: int) -> Seq<char> {
    if bonus >= 0 {
        seq!['+'] + decimal(bonus as nat)
    } else {
        signed_decimal(bonus)
    }
}

/// Format a bonus the way a sheet shows it: always signed.
pub fn format_bonus(bonus: i64) -> (s: String)
    ensures
        s@ == format_bonus_spec(bonus as int),
{
    let mut s = String::new();
    if bonus >= 0 {
        push_char(&mut s, '+');
        push_decimal(&mut s, bonus as u64);
    } else {
        push_char(&mut s, '-');
        let magnitude: u64 = if bonus == i64::MIN {
            9223372036854775808u64
        } else {
            (-bonus) as u64
        };
        push_decimal(&mut s, magnitude);
    }
    assert(s@ =~= format_bonus_spec(bonus as int));
    s
}

/// The death-save count after clicking pip `pip` (1-based): clicking a filled
/// pip clears back to it, clicking an empty one fills up to it.
pub fn death_save_after_click(current: i64, pip: i64) -> (next: i64)
    requires
        current >= pip ==> pip > i64::MIN,
    ensures
        next == if current >= pip {
            pip - 1
        } else {
            pip as int
        },
{
    if current >= pip {
        pip - 1
    } else {
        pip
    }
}

/// The 18 skills and the ability each keys off.
pub const SKILLS: [(&'static str, &'static str, Ability); 18] = [
    ("acrobatics", "Acrobatics", Ability::Dex),
    ("animal_handling", "Animal Handling", Ability::Wis),
    ("arcana", "Arcana", Ability::Int),
    ("athletics", "Athletics", Ability::Str),
    ("deception", "Deception", Ability::Cha),
    ("history", "History", Ability::Int),
    ("insight", "Insight", Ability::Wis),
    ("intimidation", "Intimidation", Ability::Cha),
    ("investigation", "Investigation", Ability::Int),
    ("medicine", "Medicine", Ability::Wis),
    ("nature", "Nature", Ability::Int),
    ("perception", "Perception", Ability::Wis),
    ("performance", "Performance", Ability::Cha),
    ("persuasion", "Persuasion", Ability::Cha),
    ("religion", "Religion", Ability::Int),
    ("sleight_of_hand", "Sleight of Hand", Ability::Dex),
    ("stealth", "Stealth", Ability::Dex),
    ("survival", "Survival", Ability::Wis),
];

/// Standard 5e conditions, offered in the combat tracker.
pub const CONDITIONS: [&'static str; 15] = [
    "Blinded",
    "Charmed",
    "Deafened",
    "Exhaustion",
    "Frightened",
    "Grappled",
    "Incapacitated",
    "Invisible",
    "Paralyzed",
    "Petrified",
    "Poisoned",
    "Prone",
    "Restrained",
    "Stunned",
    "Unconscious",
];

/// Index of the first skill at or after `i` whose key is `key`, or 18.
pub open spec fn skill_index_from(key: Seq<char>, i: int) -> int
    decreases 18 - i,
{
    if i >= 18 || i < 0 {
        18
    } else if SKILLS[i].0@ == key {
        i
    } else {
        skill_index_from(key, i + 1)
    }
}

/// The ability that the skill with key `key` keys off, if there is such a skill.
pub open spec fn skill_ability_spec(key: Seq<char>) -> Option<Ability> {
    let i = skill_index_from(key, 0);
    if i < 18 {
        Some(SKILLS[i].2)
    } else {
        None
    }
}

/// The ability that the skill with key `key` keys off, if there is such a skill.
pub fn skill_ability(key: &str) -> (r: Option<Ability>)
    ensures
        r == skill_ability_spec(key@),
{
    let mut i: usize = 0;
    while i < 18
        invariant
            i <= 18,
            skill_index_from(key@, 0) == skill_index_from(key@, i as int),
        decreases 18 - i,
    {
        let (k, _, ability) = SKILLS[i];
        if same_text(k, key) {
            return Some(ability);
        }
        i = i + 1;
    }
    None
}

/// No two skills share a key.
pub proof fn lemma_skill_keys_unique()
    ensures
        forall|i: int, j: int| 0 <= i < j < 18 ==> SKILLS[i].0@ != SKILLS[j].0@,
{
    reveal_strlit("acrobatics");
    reveal_strlit("animal_handling");
    reveal_strlit("arcana");
    reveal_strlit("athletics");
    reveal_strlit("deception");
    reveal_strlit("history");
    reveal_strlit("insight");
    reveal_strlit("intimidation");
    reveal_strlit("investigation");
    reveal_strlit("medicine");
    reveal_strlit("nature");
    reveal_strlit("perception");
    reveal_strlit("performance");
    reveal_strlit("persuasion");
    reveal_strlit("religion");
    reveal_strlit("sleight_of_hand");
    reveal_strlit("stealth");
    reveal_strlit("survival");
    assert forall|i: int, j: int| 0 <= i < j < 18 implies SKILLS[i].0@ != SKILLS[j].0@ by {
        let a = SKILLS[i].0@;
        let b = SKILLS[j].0@;
        assert(a.len() != b.len() || a[0] != b[0] || a[1] != b[1] || a[2] != b[2] || a[3] != b[3]);
    }
}

/// Perception keys off Wisdom.
pub proof fn lemma_perception_keys_off_wisdom()
    ensures
        skill_ability_spec("perception"@) == Some(Ability::Wis),
{
    reveal_strlit("perception");
    reveal_strlit("acrobatics");
    reveal_strlit("animal_handling");
    reveal_strlit("arcana");
    reveal_strlit("athletics");
    reveal_strlit("deception");
    reveal_strlit("history");
    reveal_strlit("insight");
    reveal_strlit("intimidation");
    reveal_strlit("investigation");
    reveal_strlit("medicine");
    reveal_strlit("nature");
    let p = "perception"@;
    assert forall|i: int| 0 <= i < 11 implies SKILLS[i].0@ != p by {
        let a = SKILLS[i].0@;
        assert(a.len() != p.len() || a[0] != p[0]);
    }
    assert(skill_index_from(p, 11) == 11);
    assert(skill_index_from(p, 10) == 11);
    assert(skill_index_from(p, 9) == 11);
    assert(skill_index_from(p, 8) == 11);
    assert(skill_index_from(p, 7) == 11);
    assert(skill_index_from(p, 6) == 11);
    assert(skill_index_from(p, 5) == 11);
    assert(skill_index_from(p, 4) == 11);
    assert(skill_index_from(p, 3) == 11);
    assert(skill_index_from(p, 2) == 11);
    assert(skill_index_from(p, 1) == 11);
    assert(skill_index_from(p, 0) == 11);
}

/// Expertise doubles the proficiency bonus: over the bare modifier a
/// proficient skill adds the proficiency bonus, an expert one twice it, and an
/// untrained one nothing.
pub proof fn lemma_expertise_doubles_proficiency(score: int, level: int)
    ensures
        skill_bonus_spec(score, level, false, false) == modifier_spec(score),
        skill_bonus_spec(score, level, true, false) == modifier_spec(score) + proficiency_spec(level),
        skill_bonus_spec(score, level, true, true) == modifier_spec(score) + 2 * proficiency_spec(
            level,
        ),
        skill_bonus_spec(score, level, false, true) == skill_bonus_spec(score, level, true, true),
{
}

/// A formatted bonus always starts with its sign.
pub proof fn lemma_format_bonus_signed(bonus: int)
    ensures
        format_bonus_spec(bonus).len() >= 2,
        format_bonus_spec(bonus)[0] == if bonus >= 0 {
            '+'
        } else {
            '-'
        },
{
    if bonus >= 0 {
        crate::dice::lemma_decimal(bonus as nat);
    } else {
        crate::dice::lemma_decimal((-bonus) as nat);
    }
}

} // verus!
