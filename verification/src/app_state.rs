//! Values shared between the threads of the application.

use vstd::prelude::*;
use crate::clock::instant_now;

verus! {

/// Commands sent from the hotkey thread to the main thread.
#[derive(Debug, Clone, Copy, PartialEq, Eq, Structural)]
pub enum AppCommand {
    /// Opens the region selector.
    OpenRegionSelector,
    /// Opens the subtitle region selector.
    OpenSubtitleRegionSelector,
    /// Opens the settings window.
    OpenSettings,
    /// Closes the settings window.
    CloseSettings,
}

/// Region where the text was captured.
#[derive(Clone, Copy, Debug, PartialEq, Eq, Structural)]
pub struct CaptureRegion {
    pub x: u32,
    pub y: u32,
    pub width: u32,
    pub height: u32,
}

/// How the capture was made (decides how the overlay is drawn).
#[derive(Clone, Copy, Debug, PartialEq, Eq, Structural)]
pub enum CaptureMode {
    /// A chosen region: the translations are shown together in the region.
    Region,
    /// The whole screen: each translation is shown where its text was.
    FullScreen,
}

/// The translations shown by the overlay, with the region they were captured
/// in, the capture mode and the time they were set. The items are of any type
/// (the program stores each translation with its position on the screen).
pub struct TranslationDisplay<T> {
    items: Vec<T>,
    region: Option<CaptureRegion>,
    mode: CaptureMode,
    timestamp: Option<std::time::Instant>,
}

impl<T> TranslationDisplay<T> {
    /// The translations set last.
    pub closed spec fn items(self) -> Seq<T> {
        self.items@
    }

    /// The capture region set last, if any.
    pub closed spec fn region(self) -> Option<CaptureRegion> {
        self.region
    }

    /// The capture mode set last.
    pub closed spec fn mode(self) -> CaptureMode {
        self.mode
    }

    /// Whether a time is recorded for the translations.
    pub closed spec fn stamped(self) -> bool {
        self.timestamp is Some
    }

    /// The time recorded when the translations were set, if any.
    pub closed spec fn stamp(self) -> Option<std::time::Instant> {
        self.timestamp
    }

    /// Nothing shown yet, in region mode.
    pub fn new() -> (d: Self)
        ensures
            d.items() == Seq::<T>::empty(),
            d.region() is None,
            d.mode() == CaptureMode::Region,
            !d.stamped(),
            d.stamp() is None,
    {
        TranslationDisplay { items: Vec::new(), region: None, mode: CaptureMode::Region, timestamp: None }
    }

    /// Replaces the translations, region and mode, and records the time.
    pub fn set_translations(&mut self, items: Vec<T>, region: CaptureRegion, mode: CaptureMode)
        ensures
            final(self).items() == items@,
            final(self).region() == Some(region),
            final(self).mode() == mode,
            final(self).stamped(),
            final(self).stamp() is Some,
    {
        self.items = items;
        self.region = Some(region);
        self.mode = mode;
        self.timestamp = Some(instant_now());
    }

    /// The translations with their region, mode and time, when there is at
    /// least one translation, a region and a time; `None` otherwise.
    pub fn get_translations(&self) -> (r: Option<(&[T], CaptureRegion, CaptureMode, std::time::Instant)>)
        ensures
            r is Some <==> (self.items().len() > 0 && self.region() is Some && self.stamped()),
            r matches Some((items, region, mode, ts)) ==> {
                &&& items@ == self.items()
                &&& Some(region) == self.region()
                &&& mode == self.mode()
                &&& Some(ts) == self.stamp()
            },
    {
        let region = match self.region {
            Some(r) => r,
            None => return None,
        };
        let timestamp = match self.timestamp {
            Some(t) => t,
            None => return None,
        };
        if self.items.len() == 0 {
            return None;
        }
        Some((self.items.as_slice(), region, self.mode, timestamp))
    }

    /// Forgets the translations, the region and the time (the mode stays).
    pub fn clear_translations(&mut self)
        ensures
            final(self).items() == Seq::<T>::empty(),
            final(self).region() is None,
            !final(self).stamped(),
            final(self).stamp() is None,
            final(self).mode() == old(self).mode(),
    {
        self.items = Vec::new();
        self.region = None;
        self.timestamp = None;
    }
}

} // verus!
