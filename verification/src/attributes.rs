//! Style attributes: the closed set of names that `SetAttribute` takes, the
//! field of the style record that each name selects, and the record itself.
//!
//! The values are the host's. The record keeps, for each field that was set,
//! the kind of value and the number under which the host holds it.

use vstd::prelude::*;
use crate::elements::GlobalAttributes;
use crate::elements::div;
use crate::text::same_text;

verus! {

/// A typed value on its way through the diffing engine as an attribute.
#[derive(Debug, Clone, Copy, PartialEq, Eq)]
pub struct Attr<T>(pub T);

/// The kinds of value that the fields of a style record take.
#[derive(Debug, Clone, Copy, PartialEq, Eq, Structural)]
pub enum ValueKind {
    /// Whether and how the node is laid out.
    Display,
    /// Whether the node is placed in the flow or against its parent.
    PositionType,
    /// What happens to content that does not fit.
    Overflow,
    /// The direction of text and of layout.
    Direction,
    /// A length: automatic, in pixels, in percent, or relative to the viewport.
    Length,
    /// A ratio of width to height, or none.
    Ratio,
    /// How the items are aligned on the cross axis.
    AlignItems,
    /// How the items are aligned on the main axis.
    JustifyItems,
    /// How the node itself is aligned on the cross axis.
    AlignSelf,
    /// How the node itself is aligned on the main axis.
    JustifySelf,
    /// How the lines are spread on the cross axis.
    AlignContent,
    /// How the items are spread on the main axis.
    JustifyContent,
    /// Four lengths, one for each side.
    Rect,
    /// The main axis of a flex container.
    FlexDirection,
    /// Whether a flex container wraps.
    FlexWrap,
    /// A plain number.
    Number,
    /// How a grid places the items that name no cell.
    GridAutoFlow,
    /// The tracks of a grid template, each with its repetition.
    RepeatedTracks,
    /// The tracks that a grid adds by itself.
    Tracks,
    /// The cells of a grid that an item takes.
    GridPlacement,
}

/// A value of the host's: its kind, and the number under which the host holds
/// it.
#[derive(Debug, Clone, Copy, PartialEq, Eq, Structural)]
pub struct StyleValue {
    pub kind: ValueKind,
    pub handle: u64,
}

/// What an attribute is set to.
#[derive(Debug, Clone, Copy, PartialEq, Eq, Structural)]
pub enum AttributeValue {
    /// Nothing: the attribute goes back to its default.
    Absent,
    /// A typed value.
    Any(StyleValue),
    /// A plain text, number or flag. No style attribute takes one.
    Plain,
}

/// The fields of a style record.
#[derive(Debug, Clone, Copy, PartialEq, Eq, Structural)]
pub enum StyleField {
    Display,
    PositionType,
    Overflow,
    Direction,
    Left,
    Right,
    Top,
    Bottom,
    Width,
    Height,
    MinWidth,
    MinHeight,
    MaxWidth,
    MaxHeight,
    AspectRatio,
    AlignItems,
    JustifyItems,
    AlignSelf,
    JustifySelf,
    AlignContent,
    JustifyContent,
    Margin,
    Padding,
    Border,
    FlexDirection,
    FlexWrap,
    FlexGrow,
    FlexShrink,
    FlexBasis,
    RowGap,
    ColumnGap,
    GridAutoFlow,
    GridTemplateRows,
    GridTemplateColumns,
    GridAutoRows,
    GridAutoColumns,
    GridRow,
    GridColumn,
}

/// The number of fields in a style record.
pub const FIELD_COUNT: usize = 38;

/// The field that an attribute name selects, if the name is one of the
/// supported ones.
pub open spec fn field_named(name: Seq<char>) -> Option<StyleField> {
    if name == div::display.0@ {
        Some(StyleField::Display)
    } else if name == div::position_type.0@ {
        Some(StyleField::PositionType)
    } else if name == div::overflow.0@ {
        Some(StyleField::Overflow)
    } else if name == div::direction.0@ {
        Some(StyleField::Direction)
    } else if name == div::left.0@ {
        Some(StyleField::Left)
    } else if name == div::right.0@ {
        Some(StyleField::Right)
    } else if name == div::top.0@ {
        Some(StyleField::Top)
    } else if name == div::bottom.0@ {
        Some(StyleField::Bottom)
    } else if name == div::width.0@ {
        Some(StyleField::Width)
    } else if name == div::height.0@ {
        Some(StyleField::Height)
    } else if name == div::min_width.0@ {
        Some(StyleField::MinWidth)
    } else if name == div::min_height.0@ {
        Some(StyleField::MinHeight)
    } else if name == div::max_width.0@ {
        Some(StyleField::MaxWidth)
    } else if name == div::max_height.0@ {
        Some(StyleField::MaxHeight)
    } else if name == div::aspect_ratio.0@ {
        Some(StyleField::AspectRatio)
    } else if name == div::align_items.0@ {
        Some(StyleField::AlignItems)
    } else if name == div::justify_items.0@ {
        Some(StyleField::JustifyItems)
    } else if name == div::align_self.0@ {
        Some(StyleField::AlignSelf)
    } else if name == div::justify_self.0@ {
        Some(StyleField::JustifySelf)
    } else if name == div::align_content.0@ {
        Some(StyleField::AlignContent)
    } else if name == div::justify_content.0@ {
        Some(StyleField::JustifyContent)
    } else if name == div::margin.0@ {
        Some(StyleField::Margin)
    } else if name == div::padding.0@ {
        Some(StyleField::Padding)
    } else if name == div::border.0@ {
        Some(StyleField::Border)
    } else if name == div::flex_direction.0@ {
        Some(StyleField::FlexDirection)
    } else if name == div::flex_wrap.0@ {
        Some(StyleField::FlexWrap)
    } else if name == div::flex_grow.0@ {
        Some(StyleField::FlexGrow)
    } else if name == div::flex_shrink.0@ {
        Some(StyleField::FlexShrink)
    } else if name == div::flex_basis.0@ {
        Some(StyleField::FlexBasis)
    } else if name == div::row_gap.0@ {
        Some(StyleField::RowGap)
    } else if name == div::column_gap.0@ {
        Some(StyleField::ColumnGap)
    } else if name == div::grid_auto_flow.0@ {
        Some(StyleField::GridAutoFlow)
    } else if name == div::grid_template_rows.0@ {
        Some(StyleField::GridTemplateRows)
    } else if name == div::grid_template_columns.0@ {
        Some(StyleField::GridTemplateColumns)
    } else if name == div::grid_auto_rows.0@ {
        Some(StyleField::GridAutoRows)
    } else if name == div::grid_auto_columns.0@ {
        Some(StyleField::GridAutoColumns)
    } else if name == div::grid_row.0@ {
        Some(StyleField::GridRow)
    } else if name == div::grid_column.0@ {
        Some(StyleField::GridColumn)
    } else {
        None
    }
}

impl StyleField {
    /// The place of the field in a style record.
    pub open spec fn slot(self) -> int {
        match self {
            StyleField::Display => 0,
            StyleField::PositionType => 1,
            StyleField::Overflow => 2,
            StyleField::Direction => 3,
            StyleField::Left => 4,
            StyleField::Right => 5,
            StyleField::Top => 6,
            StyleField::Bottom => 7,
            StyleField::Width => 8,
            StyleField::Height => 9,
            StyleField::MinWidth => 10,
            StyleField::MinHeight => 11,
            StyleField::MaxWidth => 12,
            StyleField::MaxHeight => 13,
            StyleField::AspectRatio => 14,
            StyleField::AlignItems => 15,
            StyleField::JustifyItems => 16,
            StyleField::AlignSelf => 17,
            StyleField::JustifySelf => 18,
            StyleField::AlignContent => 19,
            StyleField::JustifyContent => 20,
            StyleField::Margin => 21,
            StyleField::Padding => 22,
            StyleField::Border => 23,
            StyleField::FlexDirection => 24,
            StyleField::FlexWrap => 25,
            StyleField::FlexGrow => 26,
            StyleField::FlexShrink => 27,
            StyleField::FlexBasis => 28,
            StyleField::RowGap => 29,
            StyleField::ColumnGap => 30,
            StyleField::GridAutoFlow => 31,
            StyleField::GridTemplateRows => 32,
            StyleField::GridTemplateColumns => 33,
            StyleField::GridAutoRows => 34,
            StyleField::GridAutoColumns => 35,
            StyleField::GridRow => 36,
            StyleField::GridColumn => 37,
        }
    }

    /// The kind of value that the field takes.
    pub open spec fn kind_of(self) -> ValueKind {
        match self {
            StyleField::Display => ValueKind::Display,
            StyleField::PositionType => ValueKind::PositionType,
            StyleField::Overflow => ValueKind::Overflow,
            StyleField::Direction => ValueKind::Direction,
            StyleField::Left => ValueKind::Length,
            StyleField::Right => ValueKind::Length,
            StyleField::Top => ValueKind::Length,
            StyleField::Bottom => ValueKind::Length,
            StyleField::Width => ValueKind::Length,
            StyleField::Height => ValueKind::Length,
            StyleField::MinWidth => ValueKind::Length,
            StyleField::MinHeight => ValueKind::Length,
            StyleField::MaxWidth => ValueKind::Length,
            StyleField::MaxHeight => ValueKind::Length,
            StyleField::AspectRatio => ValueKind::Ratio,
            StyleField::AlignItems => ValueKind::AlignItems,
            StyleField::JustifyItems => ValueKind::JustifyItems,
            StyleField::AlignSelf => ValueKind::AlignSelf,
            StyleField::JustifySelf => ValueKind::JustifySelf,
            StyleField::AlignContent => ValueKind::AlignContent,
            StyleField::JustifyContent => ValueKind::JustifyContent,
            StyleField::Margin => ValueKind::Rect,
            StyleField::Padding => ValueKind::Rect,
            StyleField::Border => ValueKind::Rect,
            StyleField::FlexDirection => ValueKind::FlexDirection,
            StyleField::FlexWrap => ValueKind::FlexWrap,
            StyleField::FlexGrow => ValueKind::Number,
            StyleField::FlexShrink => ValueKind::Number,
            StyleField::FlexBasis => ValueKind::Length,
            StyleField::RowGap => ValueKind::Length,
            StyleField::ColumnGap => ValueKind::Length,
            StyleField::GridAutoFlow => ValueKind::GridAutoFlow,
            StyleField::GridTemplateRows => ValueKind::RepeatedTracks,
            StyleField::GridTemplateColumns => ValueKind::RepeatedTracks,
            StyleField::GridAutoRows => ValueKind::Tracks,
            StyleField::GridAutoColumns => ValueKind::Tracks,
            StyleField::GridRow => ValueKind::GridPlacement,
            StyleField::GridColumn => ValueKind::GridPlacement,
        }
    }

    /// The field that `name` selects.
    pub fn from_name(name: &str) -> (field: Option<StyleField>)
        ensures
            field == field_named(name@),
    {
        if same_text(name, div::display.0) {
            Some(StyleField::Display)
        } else if same_text(name, div::position_type.0) {
            Some(StyleField::PositionType)
        } else if same_text(name, div::overflow.0) {
            Some(StyleField::Overflow)
        } else if same_text(name, div::direction.0) {
            Some(StyleField::Direction)
        } else if same_text(name, div::left.0) {
            Some(StyleField::Left)
        } else if same_text(name, div::right.0) {
            Some(StyleField::Right)
        } else if same_text(name, div::top.0) {
            Some(StyleField::Top)
        } else if same_text(name, div::bottom.0) {
            Some(StyleField::Bottom)
        } else if same_text(name, div::width.0) {
            Some(StyleField::Width)
        } else if same_text(name, div::height.0) {
            Some(StyleField::Height)
        } else if same_text(name, div::min_width.0) {
            Some(StyleField::MinWidth)
        } else if same_text(name, div::min_height.0) {
            Some(StyleField::MinHeight)
        } else if same_text(name, div::max_width.0) {
            Some(StyleField::MaxWidth)
        } else if same_text(name, div::max_height.0) {
            Some(StyleField::MaxHeight)
        } else if same_text(name, div::aspect_ratio.0) {
            Some(StyleField::AspectRatio)
        } else if same_text(name, div::align_items.0) {
            Some(StyleField::AlignItems)
        } else if same_text(name, div::justify_items.0) {
            Some(StyleField::JustifyItems)
        } else if same_text(name, div::align_self.0) {
            Some(StyleField::AlignSelf)
        } else if same_text(name, div::justify_self.0) {
            Some(StyleField::JustifySelf)
        } else if same_text(name, div::align_content.0) {
            Some(StyleField::AlignContent)
        } else if same_text(name, div::justify_content.0) {
            Some(StyleField::JustifyContent)
        } else if same_text(name, div::margin.0) {
            Some(StyleField::Margin)
        } else if same_text(name, div::padding.0) {
            Some(StyleField::Padding)
        } else if same_text(name, div::border.0) {
            Some(StyleField::Border)
        } else if same_text(name, div::flex_direction.0) {
            Some(StyleField::FlexDirection)
        } else if same_text(name, div::flex_wrap.0) {
            Some(StyleField::FlexWrap)
        } else if same_text(name, div::flex_grow.0) {
            Some(StyleField::FlexGrow)
        } else if same_text(name, div::flex_shrink.0) {
            Some(StyleField::FlexShrink)
        } else if same_text(name, div::flex_basis.0) {
            Some(StyleField::FlexBasis)
        } else if same_text(name, div::row_gap.0) {
            Some(StyleField::RowGap)
        } else if same_text(name, div::column_gap.0) {
            Some(StyleField::ColumnGap)
        } else if same_text(name, div::grid_auto_flow.0) {
            Some(StyleField::GridAutoFlow)
        } else if same_text(name, div::grid_template_rows.0) {
            Some(StyleField::GridTemplateRows)
        } else if same_text(name, div::grid_template_columns.0) {
            Some(StyleField::GridTemplateColumns)
        } else if same_text(name, div::grid_auto_rows.0) {
            Some(StyleField::GridAutoRows)
        } else if same_text(name, div::grid_auto_columns.0) {
            Some(StyleField::GridAutoColumns)
        } else if same_text(name, div::grid_row.0) {
            Some(StyleField::GridRow)
        } else if same_text(name, div::grid_column.0) {
            Some(StyleField::GridColumn)
        } else {
            None
        }
    }

    /// The place of the field in a style record.
    pub fn index(self) -> (index: usize)
        ensures
            index == self.slot(),
            index < FIELD_COUNT,
    {
        match self {
            StyleField::Display => 0,
            StyleField::PositionType => 1,
            StyleField::Overflow => 2,
            StyleField::Direction => 3,
            StyleField::Left => 4,
            StyleField::Right => 5,
            StyleField::Top => 6,
            StyleField::Bottom => 7,
            StyleField::Width => 8,
            StyleField::Height => 9,
            StyleField::MinWidth => 10,
            StyleField::MinHeight => 11,
            StyleField::MaxWidth => 12,
            StyleField::MaxHeight => 13,
            StyleField::AspectRatio => 14,
            StyleField::AlignItems => 15,
            StyleField::JustifyItems => 16,
            StyleField::AlignSelf => 17,
            StyleField::JustifySelf => 18,
            StyleField::AlignContent => 19,
            StyleField::JustifyContent => 20,
            StyleField::Margin => 21,
            StyleField::Padding => 22,
            StyleField::Border => 23,
            StyleField::FlexDirection => 24,
            StyleField::FlexWrap => 25,
            StyleField::FlexGrow => 26,
            StyleField::FlexShrink => 27,
            StyleField::FlexBasis => 28,
            StyleField::RowGap => 29,
            StyleField::ColumnGap => 30,
            StyleField::GridAutoFlow => 31,
            StyleField::GridTemplateRows => 32,
            StyleField::GridTemplateColumns => 33,
            StyleField::GridAutoRows => 34,
            StyleField::GridAutoColumns => 35,
            StyleField::GridRow => 36,
            StyleField::GridColumn => 37,
        }
    }

    /// The kind of value that the field takes.
    pub fn kind(self) -> (kind: ValueKind)
        ensures
            kind == self.kind_of(),
    {
        match self {
            StyleField::Display => ValueKind::Display,
            StyleField::PositionType => ValueKind::PositionType,
            StyleField::Overflow => ValueKind::Overflow,
            StyleField::Direction => ValueKind::Direction,
            StyleField::Left => ValueKind::Length,
            StyleField::Right => ValueKind::Length,
            StyleField::Top => ValueKind::Length,
            StyleField::Bottom => ValueKind::Length,
            StyleField::Width => ValueKind::Length,
            StyleField::Height => ValueKind::Length,
            StyleField::MinWidth => ValueKind::Length,
            StyleField::MinHeight => ValueKind::Length,
            StyleField::MaxWidth => ValueKind::Length,
            StyleField::MaxHeight => ValueKind::Length,
            StyleField::AspectRatio => ValueKind::Ratio,
            StyleField::AlignItems => ValueKind::AlignItems,
            StyleField::JustifyItems => ValueKind::JustifyItems,
            StyleField::AlignSelf => ValueKind::AlignSelf,
            StyleField::JustifySelf => ValueKind::JustifySelf,
            StyleField::AlignContent => ValueKind::AlignContent,
            StyleField::JustifyContent => ValueKind::JustifyContent,
            StyleField::Margin => ValueKind::Rect,
            StyleField::Padding => ValueKind::Rect,
            StyleField::Border => ValueKind::Rect,
            StyleField::FlexDirection => ValueKind::FlexDirection,
            StyleField::FlexWrap => ValueKind::FlexWrap,
            StyleField::FlexGrow => ValueKind::Number,
            StyleField::FlexShrink => ValueKind::Number,
            StyleField::FlexBasis => ValueKind::Length,
            StyleField::RowGap => ValueKind::Length,
            StyleField::ColumnGap => ValueKind::Length,
            StyleField::GridAutoFlow => ValueKind::GridAutoFlow,
            StyleField::GridTemplateRows => ValueKind::RepeatedTracks,
            StyleField::GridTemplateColumns => ValueKind::RepeatedTracks,
            StyleField::GridAutoRows => ValueKind::Tracks,
            StyleField::GridAutoColumns => ValueKind::Tracks,
            StyleField::GridRow => ValueKind::GridPlacement,
            StyleField::GridColumn => ValueKind::GridPlacement,
        }
    }
}

/// A style record without a field set.
pub open spec fn default_style() -> Seq<Option<StyleValue>> {
    Seq::new(FIELD_COUNT as nat, |i: int| None)
}

/// The style record of a node: for each field the value that it was set to, or
/// nothing where it stands at its default.
#[derive(Debug)]
pub struct Style {
    fields: Vec<Option<StyleValue>>,
}

impl View for Style {
    type V = Seq<Option<StyleValue>>;

    closed spec fn view(&self) -> Seq<Option<StyleValue>> {
        self.fields@
    }
}

impl Default for Style {
    fn default() -> (style: Self)
        ensures
            style@ == default_style(),
    {
        let mut fields: Vec<Option<StyleValue>> = Vec::with_capacity(FIELD_COUNT);
        while fields.len() < FIELD_COUNT
            invariant
                fields@.len() <= FIELD_COUNT,
                forall|i: int| 0 <= i < fields@.len() ==> fields@[i] == None::<StyleValue>,
            decreases FIELD_COUNT - fields@.len(),
        {
            fields.push(None);
        }
        Style { fields }
    }
}

impl Style {
    /// Every record has one slot for each field.
    #[verifier::type_invariant]
    spec fn complete(self) -> bool {
        self.fields@.len() == FIELD_COUNT
    }

    /// What `field` was set to, or nothing where it stands at its default.
    pub fn get(&self, field: StyleField) -> (value: Option<StyleValue>)
        ensures
            self@.len() == FIELD_COUNT,
            value == self@[field.slot()],
    {
        proof {
            use_type_invariant(self);
        }
        self.fields[field.index()]
    }

    /// Sets `field` to `value`, or back to its default where `value` is
    /// nothing. The other fields stay.
    pub fn set(&mut self, field: StyleField, value: Option<StyleValue>)
        ensures
            final(self)@ == old(self)@.update(field.slot(), value),
            final(self)@.len() == FIELD_COUNT,
    {
        proof {
            use_type_invariant(&*self);
        }
        let index = field.index();
        self.fields[index] = value;
    }
}

} // verus!
