//! Widget classes ([`WidgetClass`]): the static description of a widget type.
use vstd::prelude::*;
use crate::flags::ObjFlags;

verus! {

/// Whether a class is added to the default focus group automatically.
#[derive(Clone, Copy, Debug, PartialEq, Eq, Structural, Hash)]
pub enum GroupDef {
    /// Decided by the flags.
    Default,
    /// Always added.
    True,
    /// Never added.
    False,
}

/// Whether a class has an encoder edit mode.
#[derive(Clone, Copy, Debug, PartialEq, Eq, Structural, Hash)]
pub enum Editable {
    /// Like the parent class.
    Inherit,
    /// Editable (e.g. slider, roller).
    True,
    /// Not editable.
    False,
}

/// A part of a widget that is styled and drawn on its own (LVGL `lv_part_t`).
#[derive(Clone, Copy, Debug, PartialEq, Eq, Structural, Hash)]
pub enum Part {
    /// The background, like a rectangle.
    Main,
    /// The scrollbars.
    Scrollbar,
    /// The indicator of a slider, bar or switch.
    Indicator,
    /// The handle to drag.
    Knob,
    /// The selected option or cell.
    Selected,
    /// The repeated items (buttons of a matrix, options of a list).
    Items,
    /// The text cursor.
    Cursor,
}

/// Static description of a widget type (LVGL `lv_obj_class_t`).
#[derive(Clone, Copy, Debug)]
pub struct WidgetClass {
    /// Class name (`"obj"`, `"button"`…).
    pub name: &'static str,
    /// The parts the widget draws.
    pub parts: &'static [Part],
    /// Flags of a new node of this class.
    pub default_flags: ObjFlags,
    /// Default focus group membership.
    pub group_def: GroupDef,
    /// Encoder edit mode.
    pub editable: Editable,
    /// Whether themes style it like its base class.
    pub theme_inheritable: bool,
}

impl WidgetClass {
    /// A class with parts `[Main]`, no flags, `GroupDef::Default`, `Editable::Inherit`,
    /// theme-inheritable.
    pub fn new(name: &'static str) -> (c: WidgetClass)
        ensures
            c.name == name,
            c.parts@ == seq![Part::Main],
            c.default_flags.bits == 0,
            c.group_def == GroupDef::Default,
            c.editable == Editable::Inherit,
            c.theme_inheritable,
    {
        let parts: &'static [Part] = &[Part::Main];
        WidgetClass {
            name,
            parts,
            default_flags: ObjFlags { bits: 0 },
            group_def: GroupDef::Default,
            editable: Editable::Inherit,
            theme_inheritable: true,
        }
    }

    /// With these parts.
    pub fn parts(self, parts: &'static [Part]) -> (c: WidgetClass)
        ensures
            c.parts == parts,
            c.name == self.name && c.default_flags == self.default_flags && c.group_def == self.group_def
                && c.editable == self.editable && c.theme_inheritable == self.theme_inheritable,
    {
        WidgetClass { parts, ..self }
    }

    /// With these default flags.
    pub fn default_flags(self, flags: ObjFlags) -> (c: WidgetClass)
        ensures
            c.default_flags == flags,
            c.name == self.name && c.parts == self.parts && c.group_def == self.group_def && c.editable == self.editable
                && c.theme_inheritable == self.theme_inheritable,
    {
        WidgetClass { default_flags: flags, ..self }
    }

    /// With this group membership.
    pub fn group_def(self, g: GroupDef) -> (c: WidgetClass)
        ensures
            c.group_def == g,
            c.name == self.name && c.parts == self.parts && c.default_flags == self.default_flags && c.editable
                == self.editable && c.theme_inheritable == self.theme_inheritable,
    {
        WidgetClass { group_def: g, ..self }
    }

    /// With this edit mode.
    pub fn editable(self, e: Editable) -> (c: WidgetClass)
        ensures
            c.editable == e,
            c.name == self.name && c.parts == self.parts && c.default_flags == self.default_flags && c.group_def
                == self.group_def && c.theme_inheritable == self.theme_inheritable,
    {
        WidgetClass { editable: e, ..self }
    }

    /// Whether themes style it like its base class.
    pub fn theme_inheritable(self, on: bool) -> (c: WidgetClass)
        ensures
            c.theme_inheritable == on,
            c.name == self.name && c.parts == self.parts && c.default_flags == self.default_flags && c.group_def
                == self.group_def && c.editable == self.editable,
    {
        WidgetClass { theme_inheritable: on, ..self }
    }
}

} // verus!
