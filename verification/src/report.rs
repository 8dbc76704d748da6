//! Check results: levels, items, sections, the report, and its text form.

use vstd::prelude::*;
use crate::text::{decimal, display_width, push_char, push_decimal, push_str, width_of};

verus! {

/// The result of one check. Declared from mild to severe, so that the order
/// of the variants is the order of severity.
#[derive(Debug, Clone, Copy, PartialEq, Eq, Structural, PartialOrd, Ord, Hash)]
pub enum Level {
    Info,
    Pass,
    Warn,
    Ng,
}

/// Severity of a level: its place in the declaration order.
pub open spec fn rank(l: Level) -> nat {
    match l {
        Level::Info => 0,
        Level::Pass => 1,
        Level::Warn => 2,
        Level::Ng => 3,
    }
}

/// The more severe of two levels.
pub open spec fn max_level(a: Level, b: Level) -> Level {
    if rank(a) >= rank(b) {
        a
    } else {
        b
    }
}

/// The milder of two levels.
pub open spec fn min_level(a: Level, b: Level) -> Level {
    if rank(a) <= rank(b) {
        a
    } else {
        b
    }
}

/// The mark printed for a level.
pub open spec fn mark_of(l: Level) -> Seq<char> {
    match l {
        Level::Pass => "✓"@,
        Level::Warn => "!"@,
        Level::Ng => "✗"@,
        Level::Info => "-"@,
    }
}

impl Level {
    /// `✓`, `!`, `✗` or `-`.
    pub fn mark(self) -> (m: &'static str)
        ensures
            m@ == mark_of(self),
    {
        match self {
            Level::Pass => "✓",
            Level::Warn => "!",
            Level::Ng => "✗",
            Level::Info => "-",
        }
    }

    /// The more severe of `self` and `other` (`Ord::max`).
    pub fn at_least(self, other: Level) -> (l: Level)
        ensures
            l == max_level(self, other),
    {
        if self.severity() >= other.severity() {
            self
        } else {
            other
        }
    }

    /// The milder of `self` and `other` (`Ord::min`).
    pub fn at_most(self, other: Level) -> (l: Level)
        ensures
            l == min_level(self, other),
    {
        if self.severity() <= other.severity() {
            self
        } else {
            other
        }
    }

    /// Severity as a number (`Info` 0 up to `Ng` 3).
    pub fn severity(self) -> (n: u8)
        ensures
            n as nat == rank(self),
    {
        match self {
            Level::Info => 0,
            Level::Pass => 1,
            Level::Warn => 2,
            Level::Ng => 3,
        }
    }
}

/// Shown in place of an empty value.
pub const EMPTY: &'static str = "(なし)";

/// Width, in columns, that labels are padded to.
pub const LABEL_WIDTH: usize = 22;

/// One line of a section.
#[derive(Debug)]
pub struct Item {
    pub label: String,
    pub level: Level,
    pub value: String,
}

/// An item as (label, level, value).
pub type ItemModel = (Seq<char>, Level, Seq<char>);

/// The model of an item.
pub open spec fn item_model(i: Item) -> ItemModel {
    (i.label@, i.level, i.value@)
}

/// The models of a sequence of items.
pub open spec fn items_model(items: Seq<Item>) -> Seq<ItemModel> {
    items.map_values(|i: Item| item_model(i))
}

/// `n` spaces.
pub open spec fn spaces(n: nat) -> Seq<char> {
    Seq::new(n, |i: int| ' ')
}

/// The label padded with spaces to [`LABEL_WIDTH`] columns (not cut when
/// it is wider).
pub open spec fn padded(label: Seq<char>) -> Seq<char> {
    let w = display_width(label);
    label + spaces(if w < LABEL_WIDTH {
        (LABEL_WIDTH - w) as nat
    } else {
        0
    })
}

/// The value, or [`EMPTY`] where it is empty.
pub open spec fn shown_value(value: Seq<char>) -> Seq<char> {
    if value.len() == 0 {
        EMPTY@
    } else {
        value
    }
}

impl Item {
    /// The label padded with spaces to 22 columns of display width (wide
    /// characters count 2).
    pub fn padded_label(&self) -> (s: String)
        ensures
            s@ == padded(self.label@),
    {
        let w = width_of(self.label.as_str());
        let pad = LABEL_WIDTH.saturating_sub(w);
        let mut s = self.label.clone();
        let mut i: usize = 0;
        while i < pad
            invariant
                i <= pad,
                pad == (if w < LABEL_WIDTH {
                    (LABEL_WIDTH - w) as nat
                } else {
                    0
                }),
                s@ == self.label@ + spaces(i as nat),
            decreases pad - i,
        {
            push_char(&mut s, ' ');
            assert(spaces((i + 1) as nat) == spaces(i as nat).push(' '));
            i = i + 1;
        }
        s
    }

    /// The value, or `(なし)` where it is empty.
    pub fn value_or_empty(&self) -> (s: &str)
        ensures
            s@ == shown_value(self.value@),
    {
        if self.value.as_str().is_empty() {
            EMPTY
        } else {
            self.value.as_str()
        }
    }
}

/// A named list of items.
#[derive(Debug)]
pub struct Section {
    pub name: &'static str,
    pub items: Vec<Item>,
}

/// How many of `items` have level `l`.
pub open spec fn level_count(items: Seq<Item>, l: Level) -> nat
    decreases items.len(),
{
    if items.len() == 0 {
        0
    } else {
        level_count(items.drop_last(), l) + if items.last().level == l {
            1nat
        } else {
            0
        }
    }
}

/// `level_count` never exceeds the number of items.
pub proof fn lemma_level_count_le(items: Seq<Item>, l: Level)
    ensures
        level_count(items, l) <= items.len(),
    decreases items.len(),
{
    if items.len() > 0 {
        lemma_level_count_le(items.drop_last(), l);
    }
}

impl Section {
    /// An empty section.
    pub fn new(name: &'static str) -> (s: Self)
        ensures
            s.name == name,
            s.items@.len() == 0,
    {
        Section { name, items: Vec::new() }
    }

    /// Appends an item.
    pub fn add(&mut self, label: String, level: Level, value: String)
        ensures
            final(self).name == old(self).name,
            final(self).items@.len() == old(self).items@.len() + 1,
            final(self).items@.take(old(self).items@.len() as int) == old(self).items@,
            final(self).items@.last().label@ == label@,
            final(self).items@.last().level == level,
            final(self).items@.last().value@ == value@,
            items_model(final(self).items@) == items_model(old(self).items@).push(
                (label@, level, value@),
            ),
    {
        self.items.push(Item { label, level, value });
        assert(items_model(self.items@) =~= items_model(old(self).items@).push(
            (label@, level, value@),
        ));
        assert(self.items@.take(old(self).items@.len() as int) =~= old(self).items@);
    }

    /// How many items have level `level`.
    pub fn count(&self, level: Level) -> (n: usize)
        ensures
            n == level_count(self.items@, level),
    {
        let mut n: usize = 0;
        let mut i: usize = 0;
        while i < self.items.len()
            invariant
                i <= self.items.len(),
                n == level_count(self.items@.take(i as int), level),
            decreases self.items.len() - i,
        {
            proof {
                assert(self.items@.take(i + 1).drop_last() == self.items@.take(i as int));
                lemma_level_count_le(self.items@.take(i as int), level);
            }
            if self.items[i].level == level {
                n = n + 1;
            }
            i = i + 1;
        }
        assert(self.items@.take(i as int) == self.items@);
        n
    }
}

/// The result of linting one page.
#[derive(Debug)]
pub struct Report {
    pub url: String,
    pub sections: Vec<Section>,
    /// The robots.txt body, where it could be fetched.
    pub robots_txt: Option<String>,
}

/// How many items of all `sections` have level `l`.
pub open spec fn report_count(sections: Seq<Section>, l: Level) -> nat
    decreases sections.len(),
{
    if sections.len() == 0 {
        0
    } else {
        report_count(sections.drop_last(), l) + level_count(sections.last().items@, l)
    }
}

/// The number of items of all `sections`.
pub open spec fn total_items(sections: Seq<Section>) -> nat
    decreases sections.len(),
{
    if sections.len() == 0 {
        0
    } else {
        total_items(sections.drop_last()) + sections.last().items@.len()
    }
}

/// A count never exceeds the number of items.
pub proof fn lemma_report_count_le(sections: Seq<Section>, l: Level)
    ensures
        report_count(sections, l) <= total_items(sections),
    decreases sections.len(),
{
    if sections.len() > 0 {
        lemma_report_count_le(sections.drop_last(), l);
        lemma_level_count_le(sections.last().items@, l);
    }
}

/// The text of one item line: mark, padded label and value.
pub open spec fn item_line(it: Item) -> Seq<char> {
    mark_of(it.level) + " "@ + padded(it.label@) + " "@ + shown_value(it.value@) + "\n"@
}

/// The lines of `items`.
pub open spec fn items_text(items: Seq<Item>) -> Seq<char>
    decreases items.len(),
{
    if items.len() == 0 {
        seq![]
    } else {
        items_text(items.drop_last()) + item_line(items.last())
    }
}

/// The text of the sections: a `== name` header, then the item lines.
pub open spec fn sections_text(sections: Seq<Section>) -> Seq<char>
    decreases sections.len(),
{
    if sections.len() == 0 {
        seq![]
    } else {
        sections_text(sections.drop_last()) + "== "@ + sections.last().name@ + "\n"@ + items_text(
            sections.last().items@,
        )
    }
}

/// The text form of a report: the sections, then a blank line and the
/// numbers of `✗` and `!` items.
pub open spec fn report_text(r: Report) -> Seq<char> {
    sections_text(r.sections@) + "\n✗ "@ + decimal(report_count(r.sections@, Level::Ng)) + "  ! "@
        + decimal(report_count(r.sections@, Level::Warn)) + "\n"@
}

impl Report {
    /// How many items of the whole report have level `level`.
    pub fn count(&self, level: Level) -> (n: usize)
        requires
            total_items(self.sections@) <= usize::MAX,
        ensures
            n == report_count(self.sections@, level),
    {
        let mut n: usize = 0;
        let mut i: usize = 0;
        while i < self.sections.len()
            invariant
                i <= self.sections.len(),
                total_items(self.sections@) <= usize::MAX,
                n == report_count(self.sections@.take(i as int), level),
            decreases self.sections.len() - i,
        {
            proof {
                let pre = self.sections@.take(i + 1);
                assert(pre.drop_last() == self.sections@.take(i as int));
                lemma_report_count_le(pre, level);
                lemma_total_prefix(self.sections@, i + 1);
            }
            n = n + self.sections[i].count(level);
            i = i + 1;
        }
        assert(self.sections@.take(i as int) == self.sections@);
        n
    }

    /// No item is `✗`.
    pub fn ok(&self) -> (b: bool)
        requires
            total_items(self.sections@) <= usize::MAX,
        ensures
            b == (report_count(self.sections@, Level::Ng) == 0),
    {
        self.count(Level::Ng) == 0
    }

    /// The text form used with `--validate`.
    pub fn to_text(&self) -> (s: String)
        requires
            total_items(self.sections@) <= usize::MAX,
        ensures
            s@ == report_text(*self),
    {
        let mut s = String::new();
        let mut i: usize = 0;
        while i < self.sections.len()
            invariant
                i <= self.sections.len(),
                s@ == sections_text(self.sections@.take(i as int)),
            decreases self.sections.len() - i,
        {
            let sec = &self.sections[i];
            assert(self.sections@.take(i + 1).drop_last() == self.sections@.take(i as int));
            push_str(&mut s, "== ");
            push_str(&mut s, sec.name);
            push_str(&mut s, "\n");
            let ghost head = s@;
            let mut j: usize = 0;
            while j < sec.items.len()
                invariant
                    j <= sec.items.len(),
                    s@ == head + items_text(sec.items@.take(j as int)),
                decreases sec.items.len() - j,
            {
                let it = &sec.items[j];
                assert(sec.items@.take(j + 1).drop_last() == sec.items@.take(j as int));
                push_str(&mut s, it.level.mark());
                push_str(&mut s, " ");
                let p = it.padded_label();
                push_str(&mut s, p.as_str());
                push_str(&mut s, " ");
                push_str(&mut s, it.value_or_empty());
                push_str(&mut s, "\n");
                j = j + 1;
            }
            assert(sec.items@.take(j as int) == sec.items@);
            i = i + 1;
        }
        assert(self.sections@.take(i as int) == self.sections@);
        push_str(&mut s, "\n✗ ");
        let ng = self.count(Level::Ng);
        push_decimal(&mut s, ng as u128);
        push_str(&mut s, "  ! ");
        let warn = self.count(Level::Warn);
        push_decimal(&mut s, warn as u128);
        push_str(&mut s, "\n");
        s
    }
}

/// The items of a prefix of the sections are no more than all of them.
pub proof fn lemma_total_prefix(sections: Seq<Section>, k: int)
    requires
        0 <= k <= sections.len(),
    ensures
        total_items(sections.take(k)) <= total_items(sections),
    decreases sections.len() - k,
{
    if k < sections.len() {
        lemma_total_prefix(sections, k + 1);
        assert(sections.take(k + 1).drop_last() == sections.take(k));
    } else {
        assert(sections.take(k) == sections);
    }
}

/// Every item has exactly one level: the four counts add up to the number
/// of items.
pub proof fn lemma_counts_partition(items: Seq<Item>)
    ensures
        level_count(items, Level::Info) + level_count(items, Level::Pass) + level_count(
            items,
            Level::Warn,
        ) + level_count(items, Level::Ng) == items.len(),
    decreases items.len(),
{
    if items.len() > 0 {
        lemma_counts_partition(items.drop_last());
    }
}

/// A report is ok exactly when no section has an `Ng` item.
pub proof fn lemma_ok_iff_no_ng_section(sections: Seq<Section>)
    ensures
        (report_count(sections, Level::Ng) == 0) == (forall|i: int|
            0 <= i < sections.len() ==> level_count(#[trigger] sections[i].items@, Level::Ng) == 0),
    decreases sections.len(),
{
    if sections.len() > 0 {
        let rest = sections.drop_last();
        lemma_ok_iff_no_ng_section(rest);
        assert forall|i: int| 0 <= i < rest.len() implies #[trigger] rest[i] == sections[i] by {}
        if report_count(sections, Level::Ng) == 0 {
            assert forall|i: int| 0 <= i < sections.len() implies level_count(#[trigger] sections[i].items@, Level::Ng) == 0 by {
                if i < rest.len() {
                    assert(rest[i] == sections[i]);
                }
            }
        } else {
            if level_count(sections.last().items@, Level::Ng) == 0 {
                let i = choose|i: int| 0 <= i < rest.len() && level_count(#[trigger] rest[i].items@, Level::Ng) != 0;
                assert(rest[i] == sections[i]);
            }
        }
    }
}

} // verus!
