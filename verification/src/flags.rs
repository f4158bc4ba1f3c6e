//! The capabilities and states of a widget, packed into sixteen bits.

use vstd::prelude::*;

verus! {

/// One capability or state of a widget.
#[derive(Clone, Copy, Debug, PartialEq, Eq, Structural, Hash)]
pub enum UiFlags {
    IsFocused,
    CanFocus,
    MouseOver,
    MoveAble,
    Moving,
    CanClickBehind,
    AlwaysUseable,
    Minimized,
    Checked,
    FocusClick,
    IsPassword,
    CanMoveWindow,
    Clicked,
    ClickAble,
    AllowChildren,
    InnerScroll,
}

impl UiFlags {
    /// The position of the flag's bit, counted from the lowest.
    pub open spec fn bit(self) -> u16 {
        match self {
            UiFlags::IsFocused => 0,
            UiFlags::CanFocus => 1,
            UiFlags::MouseOver => 2,
            UiFlags::MoveAble => 3,
            UiFlags::Moving => 4,
            UiFlags::CanClickBehind => 5,
            UiFlags::AlwaysUseable => 6,
            UiFlags::Minimized => 7,
            UiFlags::Checked => 8,
            UiFlags::FocusClick => 9,
            UiFlags::IsPassword => 10,
            UiFlags::CanMoveWindow => 11,
            UiFlags::Clicked => 12,
            UiFlags::ClickAble => 13,
            UiFlags::AllowChildren => 14,
            UiFlags::InnerScroll => 15,
        }
    }

    /// The word in which only the flag's bit is set.
    pub open spec fn mask_of(self) -> u16 {
        1u16 << self.bit()
    }

    /// The position of the flag's bit.
    pub fn index(self) -> (i: u16)
        ensures
            i == self.bit(),
            i < 16,
    {
        match self {
            UiFlags::IsFocused => 0,
            UiFlags::CanFocus => 1,
            UiFlags::MouseOver => 2,
            UiFlags::MoveAble => 3,
            UiFlags::Moving => 4,
            UiFlags::CanClickBehind => 5,
            UiFlags::AlwaysUseable => 6,
            UiFlags::Minimized => 7,
            UiFlags::Checked => 8,
            UiFlags::FocusClick => 9,
            UiFlags::IsPassword => 10,
            UiFlags::CanMoveWindow => 11,
            UiFlags::Clicked => 12,
            UiFlags::ClickAble => 13,
            UiFlags::AllowChildren => 14,
            UiFlags::InnerScroll => 15,
        }
    }

    /// The word in which only the flag's bit is set.
    pub fn mask(self) -> (m: u16)
        ensures
            m == self.mask_of(),
    {
        1u16 << self.index()
    }
}

/// Two different flags have different bits.
pub proof fn lemma_bit_injective(f: UiFlags, g: UiFlags)
    ensures
        f.bit() < 16,
        f.bit() == g.bit() <==> f == g,
{
}

proof fn lemma_masks(x: u16, i: u16, j: u16)
    requires
        i < 16,
        j < 16,
    ensures
        (1u16 << i) != 0,
        i != j ==> ((x | (1u16 << i)) & (1u16 << j)) == (x & (1u16 << j)),
        i != j ==> ((x & !(1u16 << i)) & (1u16 << j)) == (x & (1u16 << j)),
        i != j ==> ((x ^ (1u16 << i)) & (1u16 << j)) == (x & (1u16 << j)),
        ((x | (1u16 << i)) & (1u16 << i)) != 0,
        ((x & !(1u16 << i)) & (1u16 << i)) == 0,
        ((x ^ (1u16 << i)) & (1u16 << i)) != 0 <==> (x & (1u16 << i)) == 0,
        (0u16 & (1u16 << i)) == 0,
{
    assert((1u16 << i) != 0) by (bit_vector)
        requires
            i < 16,
    ;
    assert(i != j ==> ((x | (1u16 << i)) & (1u16 << j)) == (x & (1u16 << j))) by (bit_vector)
        requires
            i < 16,
            j < 16,
    ;
    assert(i != j ==> ((x & !(1u16 << i)) & (1u16 << j)) == (x & (1u16 << j))) by (bit_vector)
        requires
            i < 16,
            j < 16,
    ;
    assert(i != j ==> ((x ^ (1u16 << i)) & (1u16 << j)) == (x & (1u16 << j))) by (bit_vector)
        requires
            i < 16,
            j < 16,
    ;
    assert(((x | (1u16 << i)) & (1u16 << i)) != 0) by (bit_vector)
        requires
            i < 16,
    ;
    assert(((x & !(1u16 << i)) & (1u16 << i)) == 0) by (bit_vector)
        requires
            i < 16,
    ;
    assert(((x ^ (1u16 << i)) & (1u16 << i)) != 0 <==> (x & (1u16 << i)) == 0) by (bit_vector)
        requires
            i < 16,
    ;
    assert((0u16 & (1u16 << i)) == 0) by (bit_vector);
}

/// A set of flags in one sixteen-bit word. Its view is the set of the flags
/// whose bit is set.
#[derive(Clone, Copy, Debug, PartialEq, Eq, Structural, Hash)]
pub struct UiField(pub u16);

impl View for UiField {
    type V = Set<UiFlags>;

    open spec fn view(&self) -> Set<UiFlags> {
        Set::new(|f: UiFlags| self.0 & f.mask_of() != 0)
    }
}

impl UiField {
    /// The field in which no flag is set.
    pub fn zeros() -> (field: UiField)
        ensures
            field@ == Set::<UiFlags>::empty(),
            field.0 == 0,
    {
        let field = UiField(0);
        proof {
            assert forall|f: UiFlags| !(#[trigger] field@.contains(f)) by {
                lemma_bit_injective(f, f);
                lemma_masks(0, f.bit(), f.bit());
            }
            assert(field@ =~= Set::<UiFlags>::empty());
        }
        field
    }

    /// Whether `flag` is set.
    pub fn get(&self, flag: UiFlags) -> (on: bool)
        ensures
            on == self@.contains(flag),
    {
        (self.0 & flag.mask()) != 0
    }

    /// Sets `flag` and leaves the others as they are.
    pub fn set(&mut self, flag: UiFlags)
        ensures
            final(self)@ == old(self)@.insert(flag),
    {
        let m = flag.mask();
        self.0 = self.0 | m;
        proof {
            let before = old(self).0;
            assert forall|g: UiFlags| self@.contains(g) == old(self)@.insert(flag).contains(g) by {
                lemma_bit_injective(flag, g);
                lemma_bit_injective(g, g);
                lemma_masks(before, flag.bit(), g.bit());
            }
            assert(self@ =~= old(self)@.insert(flag));
        }
    }

    /// Clears `flag` and leaves the others as they are.
    pub fn clear(&mut self, flag: UiFlags)
        ensures
            final(self)@ == old(self)@.remove(flag),
    {
        let m = flag.mask();
        self.0 = self.0 & !m;
        proof {
            let before = old(self).0;
            assert forall|g: UiFlags| self@.contains(g) == old(self)@.remove(flag).contains(g) by {
                lemma_bit_injective(flag, g);
                lemma_bit_injective(g, g);
                lemma_masks(before, flag.bit(), g.bit());
            }
            assert(self@ =~= old(self)@.remove(flag));
        }
    }

    /// Sets `flag` if it is clear and clears it if it is set.
    pub fn toggle(&mut self, flag: UiFlags)
        ensures
            final(self)@ == if old(self)@.contains(flag) {
                old(self)@.remove(flag)
            } else {
                old(self)@.insert(flag)
            },
    {
        let m = flag.mask();
        self.0 = self.0 ^ m;
        proof {
            let before = old(self).0;
            let want = if old(self)@.contains(flag) {
                old(self)@.remove(flag)
            } else {
                old(self)@.insert(flag)
            };
            assert forall|g: UiFlags| self@.contains(g) == want.contains(g) by {
                lemma_bit_injective(flag, g);
                lemma_bit_injective(g, g);
                lemma_masks(before, flag.bit(), g.bit());
            }
            assert(self@ =~= want);
        }
    }
}

impl Default for UiField {
    fn default() -> (field: UiField)
        ensures
            field@ == Set::<UiFlags>::empty(),
    {
        UiField::zeros()
    }
}

/// The flags of one widget.
#[derive(Clone, Copy, Debug, PartialEq, Eq, Structural, Hash)]
pub struct Actions(pub UiField);

impl View for Actions {
    type V = Set<UiFlags>;

    open spec fn view(&self) -> Set<UiFlags> {
        self.0@
    }
}

impl Actions {
    /// The field of flags.
    pub fn get(&self) -> (field: &UiField)
        ensures
            *field == self.0,
    {
        &self.0
    }

    /// The field of flags, to change it in place.
    pub fn get_mut(&mut self) -> (field: &mut UiField)
        ensures
            *field == old(self).0,
            final(self).0 == *final(field),
    {
        &mut self.0
    }

    /// Whether `flag` is set.
    pub fn is_set(&self, flag: UiFlags) -> (on: bool)
        ensures
            on == self@.contains(flag),
    {
        self.0.get(flag)
    }

    /// Sets `flag` and leaves the others as they are.
    pub fn set(&mut self, flag: UiFlags)
        ensures
            final(self)@ == old(self)@.insert(flag),
    {
        self.0.set(flag);
    }

    /// Clears `flag` and leaves the others as they are.
    pub fn clear(&mut self, flag: UiFlags)
        ensures
            final(self)@ == old(self)@.remove(flag),
    {
        self.0.clear(flag);
    }
}

impl Default for Actions {
    fn default() -> (actions: Actions)
        ensures
            actions@ == Set::<UiFlags>::empty(),
    {
        Actions(UiField::zeros())
    }
}

} // verus!
