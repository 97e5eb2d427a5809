use vstd::prelude::*;

verus! {

/// What a pointer event does to a screen region, for its listeners.
#[derive(PartialEq, Eq, Structural, Clone, Copy)]
pub enum RegionEvent {
    Enter,
    Exit,
    Click,
    Release,
}

/// Whether the pointer is over a region and whether the region is pressed.
#[derive(PartialEq, Eq, Structural, Clone, Copy)]
pub struct RegionState {
    pub is_hovering: bool,
    pub is_active: bool,
}

impl RegionState {
    /// A region that is neither hovered nor pressed.
    pub fn new() -> (r: Self)
        ensures
            !r.is_hovering,
            !r.is_active,
    {
        RegionState { is_hovering: false, is_active: false }
    }

    /// The pointer moved, now `inside` the region or not: the region enters
    /// when the pointer comes in, exits when it leaves, and is hovered
    /// exactly while the pointer is inside.
    pub fn set_hovering(&mut self, inside: bool) -> (e: Option<RegionEvent>)
        ensures
            final(self).is_hovering == inside,
            final(self).is_active == old(self).is_active,
            e == (if inside && !old(self).is_hovering {
                Some(RegionEvent::Enter)
            } else if !inside && old(self).is_hovering {
                Some(RegionEvent::Exit)
            } else {
                None
            }),
    {
        let e = if inside && !self.is_hovering {
            Some(RegionEvent::Enter)
        } else if !inside && self.is_hovering {
            Some(RegionEvent::Exit)
        } else {
            None
        };
        self.is_hovering = inside;
        e
    }

    /// A button went down with the pointer `inside` the region or not: a
    /// press inside makes the region active and clicks it (again if it
    /// already was); one outside changes nothing.
    pub fn set_active(&mut self, inside: bool) -> (e: Option<RegionEvent>)
        ensures
            final(self).is_hovering == old(self).is_hovering,
            final(self).is_active == (old(self).is_active || inside),
            e == (if inside { Some(RegionEvent::Click) } else { None }),
    {
        if !inside {
            return None;
        }
        self.is_active = true;
        Some(RegionEvent::Click)
    }

    /// The button went up: an active region is released and becomes
    /// inactive; an inactive one is left alone.
    pub fn set_inactive(&mut self) -> (e: Option<RegionEvent>)
        ensures
            final(self).is_hovering == old(self).is_hovering,
            !final(self).is_active,
            e == (if old(self).is_active { Some(RegionEvent::Release) } else { None }),
    {
        if !self.is_active {
            return None;
        }
        self.is_active = false;
        Some(RegionEvent::Release)
    }
}

} // verus!
