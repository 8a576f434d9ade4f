use vstd::prelude::*;

use crate::text_util::{chars_of, decimal, push_decimal, push_str_chars, string_from_chars};

verus! {

/// The groups of the attributes screen.
#[derive(Clone, Copy, Debug, PartialEq, Eq, Structural)]
pub enum AttributeGroup {
    Strength,
    Dexterity,
    Constitution,
    Intelligence,
    Special,
}

impl AttributeGroup {
    pub open spec fn title_spec(self) -> Seq<char> {
        match self {
            AttributeGroup::Strength => "STRENGTH STATS"@,
            AttributeGroup::Dexterity => "DEXTERITY STATS"@,
            AttributeGroup::Constitution => "CONSTITUTION STATS"@,
            AttributeGroup::Intelligence => "INTELLIGENCE STATS"@,
            AttributeGroup::Special => "SPECIAL STATS"@,
        }
    }

    pub open spec fn description_spec(self) -> Seq<char> {
        match self {
            AttributeGroup::Strength => "Raw physical power affects weapon handling and melee damage."@,
            AttributeGroup::Dexterity => "Agility and precision affects speed, accuracy, and evasion."@,
            AttributeGroup::Constitution => "Durability and health determines max HP and fortitude."@,
            AttributeGroup::Intelligence => "Knowledge and tactics affects armor regeneration."@,
            AttributeGroup::Special => "Stats that don't derive from base attributes."@,
        }
    }

    /// Title of the stats section for this group.
    pub fn title(&self) -> (s: &'static str)
        ensures
            s@ == self.title_spec(),
    {
        match self {
            AttributeGroup::Strength => "STRENGTH STATS",
            AttributeGroup::Dexterity => "DEXTERITY STATS",
            AttributeGroup::Constitution => "CONSTITUTION STATS",
            AttributeGroup::Intelligence => "INTELLIGENCE STATS",
            AttributeGroup::Special => "SPECIAL STATS",
        }
    }

    /// Description shown under the stats section title.
    pub fn description(&self) -> (s: &'static str)
        ensures
            s@ == self.description_spec(),
    {
        match self {
            AttributeGroup::Strength => "Raw physical power affects weapon handling and melee damage.",
            AttributeGroup::Dexterity => "Agility and precision affects speed, accuracy, and evasion.",
            AttributeGroup::Constitution => "Durability and health determines max HP and fortitude.",
            AttributeGroup::Intelligence => "Knowledge and tactics affects armor regeneration.",
            AttributeGroup::Special => "Stats that don't derive from base attributes.",
        }
    }
}

/// The heading of the stats section: the title between `===` marks.
pub fn section_heading(group: AttributeGroup) -> (s: String)
    ensures
        s@ == "=== "@ + group.title_spec() + " ==="@,
{
    let mut out: Vec<char> = Vec::new();
    push_str_chars(&mut out, "=== ");
    push_str_chars(&mut out, group.title());
    push_str_chars(&mut out, " ===");
    string_from_chars(&out)
}

/// The marker in front of a group's row: an arrow on the selected group, a
/// space elsewhere.
pub fn group_indicator(selected: AttributeGroup, group: AttributeGroup) -> (s: &'static str)
    ensures
        s@ == if selected == group { "→"@ } else { " "@ },
{
    if selected == group {
        "→"
    } else {
        " "
    }
}

/// `prefix` followed by a number.
pub fn labelled_number(prefix: &str, value: u32) -> (s: String)
    ensures
        s@ == prefix@ + decimal(value as nat),
{
    let mut out: Vec<char> = Vec::new();
    push_str_chars(&mut out, prefix);
    push_decimal(&mut out, value as u64);
    string_from_chars(&out)
}

/// The label of a base attribute's button: its name padded to a column,
/// then its value.
pub fn attribute_label(group: AttributeGroup, value: u32) -> (s: Option<String>)
    ensures
        s matches Some(t) ==> t@ == match group {
            AttributeGroup::Strength => "STRENGTH      "@,
            AttributeGroup::Dexterity => "DEXTERITY     "@,
            AttributeGroup::Constitution => "CONSTITUTION  "@,
            _ => "INTELLIGENCE  "@,
        } + decimal(value as nat),
        s is None <==> group == AttributeGroup::Special,
{
    match group {
        AttributeGroup::Strength => Some(labelled_number("STRENGTH      ", value)),
        AttributeGroup::Dexterity => Some(labelled_number("DEXTERITY     ", value)),
        AttributeGroup::Constitution => Some(labelled_number("CONSTITUTION  ", value)),
        AttributeGroup::Intelligence => Some(labelled_number("INTELLIGENCE  ", value)),
        AttributeGroup::Special => None,
    }
}

/// The level line of the attributes screen.
pub fn level_text(level: u32) -> (s: String)
    ensures
        s@ == "Level: "@ + decimal(level as nat),
{
    labelled_number("Level: ", level)
}

/// The line with the points left to spend.
pub fn available_points_text(points: u32) -> (s: String)
    ensures
        s@ == "Available: "@ + decimal(points as nat) + " pts"@,
{
    let mut out: Vec<char> = Vec::new();
    push_str_chars(&mut out, "Available: ");
    push_decimal(&mut out, points as u64);
    push_str_chars(&mut out, " pts");
    string_from_chars(&out)
}

/// An integer as `Display` writes it: a minus sign before negative values.
pub open spec fn int_text(v: int) -> Seq<char> {
    if v < 0 {
        "-"@ + decimal((-v) as nat)
    } else {
        decimal(v as nat)
    }
}

/// An integer with its sign always written, as the `{:+}` format gives it.
pub open spec fn signed_text(v: int) -> Seq<char> {
    if v < 0 {
        "-"@ + decimal((-v) as nat)
    } else {
        "+"@ + decimal(v as nat)
    }
}

/// Appends `v` with a minus sign when negative, and a plus sign otherwise if
/// `plus` is set.
fn push_int(out: &mut Vec<char>, v: i32, plus: bool)
    ensures
        final(out)@ == old(out)@ + if plus {
            signed_text(v as int)
        } else {
            int_text(v as int)
        },
{
    if v < 0 {
        out.push('-');
        let magnitude: i64 = -(v as i64);
        push_decimal(out, magnitude as u64);
    } else {
        if plus {
            out.push('+');
        }
        push_decimal(out, v as u64);
    }
    proof {
        reveal_strlit("-");
        reveal_strlit("+");
    }
    assert(out@ =~= old(out)@ + if plus {
        signed_text(v as int)
    } else {
        int_text(v as int)
    });
}

/// Where a stat modifier comes from.
#[derive(Clone, Debug)]
pub enum ModifierSource {
    Equipment { item_id: u64 },
    Intrinsic { name: String },
    Condition { condition_id: u64 },
}

/// A modifier's line in the stat dialog: its source and its signed value.
pub open spec fn modifier_line_spec(source: ModifierSource, value: i32) -> Seq<char> {
    match source {
        ModifierSource::Equipment { item_id } => "  Equipment #"@ + decimal(item_id as nat) + ": "@ + signed_text(value as int),
        ModifierSource::Intrinsic { name } => "  "@ + name@ + ": "@ + signed_text(value as int),
        ModifierSource::Condition { condition_id } => "  Condition "@ + decimal(condition_id as nat) + ": "@
            + signed_text(value as int),
    }
}

/// Text of a modifier's line in the stat dialog.
pub fn modifier_line(source: &ModifierSource, value: i32) -> (s: String)
    ensures
        s@ == modifier_line_spec(*source, value),
{
    let mut out: Vec<char> = Vec::new();
    match source {
        ModifierSource::Equipment { item_id } => {
            push_str_chars(&mut out, "  Equipment #");
            push_decimal(&mut out, *item_id);
        },
        ModifierSource::Intrinsic { name } => {
            push_str_chars(&mut out, "  ");
            push_str_chars(&mut out, name.as_str());
        },
        ModifierSource::Condition { condition_id } => {
            push_str_chars(&mut out, "  Condition ");
            push_decimal(&mut out, *condition_id);
        },
    }
    push_str_chars(&mut out, ": ");
    push_int(&mut out, value, true);
    string_from_chars(&out)
}

/// The title of the dialog of a stat.
pub fn stat_dialog_title(stat_name: &str) -> (s: String)
    ensures
        s@ == "=== "@ + stat_name@ + " ==="@,
{
    let mut out: Vec<char> = Vec::new();
    push_str_chars(&mut out, "=== ");
    push_str_chars(&mut out, stat_name);
    push_str_chars(&mut out, " ===");
    string_from_chars(&out)
}

/// A line of the stat dialog with a value: `label`, then the value.
pub fn stat_value_line(label: &str, value: i32) -> (s: String)
    ensures
        s@ == label@ + int_text(value as int),
{
    let mut out: Vec<char> = Vec::new();
    push_str_chars(&mut out, label);
    push_int(&mut out, value, false);
    string_from_chars(&out)
}

/// `n` spaces, none when `n` is not positive.
pub open spec fn spaces(n: int) -> Seq<char> {
    Seq::new(if n > 0 { n as nat } else { 0 }, |i: int| ' ')
}

/// `s` padded with spaces on the right to at least `width` characters, as a
/// `{:width}` format pads a string.
pub open spec fn pad_right(s: Seq<char>, width: int) -> Seq<char> {
    s + spaces(width - s.len())
}

/// `s` padded with spaces on the left to at least `width` characters, as a
/// `{:width}` format pads a number.
pub open spec fn pad_left(s: Seq<char>, width: int) -> Seq<char> {
    spaces(width - s.len()) + s
}

fn push_spaces(out: &mut Vec<char>, n: usize)
    ensures
        final(out)@ == old(out)@ + spaces(n as int),
{
    let mut i: usize = 0;
    while i < n
        invariant
            i <= n,
            out@ == old(out)@ + spaces(i as int),
        decreases n - i,
    {
        out.push(' ');
        i = i + 1;
        assert(out@ =~= old(out)@ + spaces(i as int));
    }
}

/// Appends `text` padded on the right to `width` characters.
fn push_padded_right(out: &mut Vec<char>, text: &Vec<char>, width: usize)
    ensures
        final(out)@ == old(out)@ + pad_right(text@, width as int),
{
    let mut t = text.clone();
    let n = t.len();
    out.append(&mut t);
    if n < width {
        push_spaces(out, width - n);
    } else {
        assert(spaces(width - text@.len()) =~= Seq::<char>::empty());
    }
    assert(out@ =~= old(out)@ + pad_right(text@, width as int));
}

/// Appends `text` padded on the left to `width` characters.
fn push_padded_left(out: &mut Vec<char>, text: &Vec<char>, width: usize)
    ensures
        final(out)@ == old(out)@ + pad_left(text@, width as int),
{
    let n = text.len();
    if n < width {
        push_spaces(out, width - n);
    } else {
        assert(spaces(width - text@.len()) =~= Seq::<char>::empty());
    }
    let mut t = text.clone();
    out.append(&mut t);
    assert(out@ =~= old(out)@ + pad_left(text@, width as int));
}

/// The start of a stat's button label: its name in a column of 14, then
/// its total in a column of 3.
pub open spec fn stat_columns(stat_name: Seq<char>, total: i32) -> Seq<char> {
    "  "@ + pad_right(stat_name, 14) + " "@ + pad_left(int_text(total as int), 3)
}

fn push_stat_columns(out: &mut Vec<char>, stat_name: &str, total: i32)
    ensures
        final(out)@ == old(out)@ + stat_columns(stat_name@, total),
{
    push_str_chars(out, "  ");
    let name = chars_of(stat_name);
    push_padded_right(out, &name, 14);
    push_str_chars(out, " ");
    let mut total_text: Vec<char> = Vec::new();
    push_int(&mut total_text, total, false);
    assert(total_text@ =~= int_text(total as int));
    push_padded_left(out, &total_text, 3);
    assert(out@ =~= old(out)@ + stat_columns(stat_name@, total));
}

/// Label of a stat's button: name, total, and how the base value and the
/// modifiers make it up.
pub fn stat_button_label(stat_name: &str, total: i32, base: i32, modifiers: i32) -> (s: String)
    ensures
        s@ == stat_columns(stat_name@, total) + "  ("@ + int_text(base as int) + " base "@ + signed_text(
            modifiers as int,
        ) + " mods)"@,
{
    let mut out: Vec<char> = Vec::new();
    push_stat_columns(&mut out, stat_name, total);
    push_str_chars(&mut out, "  (");
    push_int(&mut out, base, false);
    push_str_chars(&mut out, " base ");
    push_int(&mut out, modifiers, true);
    push_str_chars(&mut out, " mods)");
    string_from_chars(&out)
}

/// Label of the armor stat's button: name, total, current and maximum
/// armor, and the modifiers.
pub fn armor_button_label(stat_name: &str, total: i32, current_armor: i32, max_armor: i32, modifiers: i32) -> (s: String)
    ensures
        s@ == stat_columns(stat_name@, total) + "  ("@ + int_text(current_armor as int) + "/"@ + int_text(
            max_armor as int,
        ) + " current | "@ + int_text(total as int) + " max | "@ + signed_text(modifiers as int) + " mods)"@,
{
    let mut out: Vec<char> = Vec::new();
    push_stat_columns(&mut out, stat_name, total);
    push_str_chars(&mut out, "  (");
    push_int(&mut out, current_armor, false);
    push_str_chars(&mut out, "/");
    push_int(&mut out, max_armor, false);
    push_str_chars(&mut out, " current | ");
    push_int(&mut out, total, false);
    push_str_chars(&mut out, " max | ");
    push_int(&mut out, modifiers, true);
    push_str_chars(&mut out, " mods)");
    string_from_chars(&out)
}

} // verus!
