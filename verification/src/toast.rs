//! Notifications ("toasts"): what they say, how grave they are, how long
//! they stay, and where they are in their life on screen.

use egui::Color32;
use egui::WidgetText;
use std::time::Duration;
use vstd::prelude::*;

verus! {

/// `egui::WidgetText`, the text of a widget: carried, never looked into.
#[verifier::external_type_specification]
#[verifier::external_body]
pub struct ExWidgetText(WidgetText);

/// `egui::Color32`, a colour: carried, never looked into.
#[verifier::external_type_specification]
#[verifier::external_body]
pub struct ExColor32(Color32);

/// `Color32` is `Copy`: its `clone` hands back the same colour.
pub assume_specification[ <Color32 as Clone>::clone ](color: &Color32) -> (copy: Color32)
    ensures
        copy == *color,
;

/// Level of importance
#[derive(Debug, Clone, PartialEq, Eq)]
#[allow(missing_docs)]
pub enum ToastLevel {
    Info,
    Warning,
    Error,
    Success,
    /// No level: the toast shows no sign of one.
    Plain,
    Custom(String, Color32),
}

impl Default for ToastLevel {
    fn default() -> (level: ToastLevel)
        ensures
            level == ToastLevel::Info,
    {
        ToastLevel::Info
    }
}

/// State of the toast
#[derive(Debug)]
pub enum ToastState {
    /// Toast is appearing
    Appear,
    /// Toast is disappearing
    Disappear,
    /// Toast has disappeared
    Disappeared,
    /// Toast is idling
    Idle,
}

impl ToastState {
    /// Returns `true` if the toast is appearing
    pub fn appearing(&self) -> (b: bool)
        ensures
            b == (*self is Appear),
    {
        matches!(self, Self::Appear)
    }

    /// Returns `true` if the toast is disappearing
    pub fn disappearing(&self) -> (b: bool)
        ensures
            b == (*self is Disappear),
    {
        matches!(self, Self::Disappear)
    }

    /// Returns `true` if the toast has disappeared
    pub fn disappeared(&self) -> (b: bool)
        ensures
            b == (*self is Disappeared),
    {
        matches!(self, Self::Disappeared)
    }

    /// Returns `true` if the toast is idling
    pub fn idling(&self) -> (b: bool)
        ensures
            b == (*self is Idle),
    {
        matches!(self, Self::Idle)
    }
}

/// How long a `Duration` lasts, in nanoseconds.
pub uninterp spec fn duration_nanos(duration: Duration) -> nat;

/// Calls `Duration::from_millis`, which makes a duration of that many
/// milliseconds.
#[verifier::external_body]
fn duration_from_millis(millis: u64) -> (duration: Duration)
    ensures
        duration_nanos(duration) == millis * 1_000_000,
{
    Duration::from_millis(millis)
}

/// The milliseconds that a toast stays unless it is told otherwise.
pub const DEFAULT_MILLIS: u64 = 3500;

/// Container for options for initializing toasts
pub struct ToastOptions {
    /// In what time the toast expires; `None` for no expiry.
    pub duration: Option<Duration>,
    /// The level of the toast.
    pub level: ToastLevel,
    /// Whether the user can close the toast.
    pub closable: bool,
    /// Whether a progress bar is shown.
    pub show_progress_bar: bool,
}

impl ToastOptions {
    /// Whether these are the options that a toast has unless it is told
    /// otherwise, but for the level: it stays `DEFAULT_MILLIS`, shows a
    /// progress bar, and can be closed if `closable` says so.
    pub open spec fn usual(&self, closable: bool) -> bool {
        &&& self.duration matches Some(stay)
        &&& duration_nanos(stay) == DEFAULT_MILLIS * 1_000_000
        &&& self.closable == closable
        &&& self.show_progress_bar
    }
}

impl Default for ToastOptions {
    fn default() -> (options: ToastOptions)
        ensures
            options.usual(true),
            options.level == ToastLevel::Plain,
    {
        ToastOptions {
            duration: Some(duration_from_millis(DEFAULT_MILLIS)),
            level: ToastLevel::Plain,
            closable: true,
            show_progress_bar: true,
        }
    }
}

/// Single notification or *toast*
pub struct Toast {
    /// The level of importance.
    pub level: ToastLevel,
    /// What the toast says.
    pub caption: WidgetText,
    /// In what time the toast expires; `None` for no expiry.
    pub duration: Option<Duration>,
    /// Whether the user can close the toast.
    pub closable: bool,
    /// Whether a progress bar is shown.
    pub show_progress_bar: bool,
    /// Where the toast is in its life on screen.
    pub state: ToastState,
}

impl Toast {
    /// Whether the toast says `caption` with the options `options`, and is
    /// about to appear.
    pub open spec fn fresh(&self, caption: WidgetText, options: ToastOptions) -> bool {
        &&& self.caption == caption
        &&& self.level == options.level
        &&& self.duration == options.duration
        &&& self.closable == options.closable
        &&& self.show_progress_bar == options.show_progress_bar
        &&& self.state is Appear
    }

    /// Whether the toast says `caption` at the level `level` with the usual
    /// options, and is about to appear.
    pub open spec fn fresh_at(&self, caption: WidgetText, level: ToastLevel, closable: bool) -> bool {
        &&& self.caption == caption
        &&& self.level == level
        &&& self.duration matches Some(stay)
        &&& duration_nanos(stay) == DEFAULT_MILLIS * 1_000_000
        &&& self.closable == closable
        &&& self.show_progress_bar
        &&& self.state is Appear
    }

    fn new(caption: WidgetText, options: ToastOptions) -> (toast: Toast)
        ensures
            toast.fresh(caption, options),
    {
        Toast {
            caption,
            duration: options.duration,
            closable: options.closable,
            show_progress_bar: options.show_progress_bar,
            level: options.level,
            state: ToastState::Appear,
        }
    }

    /// Creates new basic toast, can be closed by default.
    pub fn basic(caption: WidgetText) -> (toast: Toast)
        ensures
            toast.fresh_at(caption, ToastLevel::Plain, true),
    {
        Toast::new(caption, ToastOptions::default())
    }

    /// Creates new success toast, can be closed by default.
    pub fn success(caption: WidgetText) -> (toast: Toast)
        ensures
            toast.fresh_at(caption, ToastLevel::Success, true),
    {
        let usual = ToastOptions::default();
        Toast::new(
            caption,
            ToastOptions {
                level: ToastLevel::Success,
                duration: usual.duration,
                closable: usual.closable,
                show_progress_bar: usual.show_progress_bar,
            },
        )
    }

    /// Creates new info toast, can be closed by default.
    pub fn info(caption: WidgetText) -> (toast: Toast)
        ensures
            toast.fresh_at(caption, ToastLevel::Info, true),
    {
        let usual = ToastOptions::default();
        Toast::new(
            caption,
            ToastOptions {
                level: ToastLevel::Info,
                duration: usual.duration,
                closable: usual.closable,
                show_progress_bar: usual.show_progress_bar,
            },
        )
    }

    /// Creates new warning toast, can be closed by default.
    pub fn warning(caption: WidgetText) -> (toast: Toast)
        ensures
            toast.fresh_at(caption, ToastLevel::Warning, true),
    {
        let usual = ToastOptions::default();
        Toast::new(
            caption,
            ToastOptions {
                level: ToastLevel::Warning,
                duration: usual.duration,
                closable: usual.closable,
                show_progress_bar: usual.show_progress_bar,
            },
        )
    }

    /// Creates new error toast, can not be closed by default.
    pub fn error(caption: WidgetText) -> (toast: Toast)
        ensures
            toast.fresh_at(caption, ToastLevel::Error, false),
    {
        let usual = ToastOptions::default();
        Toast::new(
            caption,
            ToastOptions {
                closable: false,
                level: ToastLevel::Error,
                duration: usual.duration,
                show_progress_bar: usual.show_progress_bar,
            },
        )
    }

    /// Creates new custom toast, can be closed by default.
    pub fn custom(caption: WidgetText, level: ToastLevel) -> (toast: Toast)
        ensures
            toast.fresh_at(caption, level, true),
    {
        let usual = ToastOptions::default();
        Toast::new(
            caption,
            ToastOptions {
                level,
                duration: usual.duration,
                closable: usual.closable,
                show_progress_bar: usual.show_progress_bar,
            },
        )
    }

    /// Set the options with a [`ToastOptions`]
    pub fn options(&mut self, options: ToastOptions) -> (toast: &mut Self)
        ensures
            *toast == (Toast {
                closable: options.closable,
                duration: options.duration,
                level: options.level,
                ..*old(self)
            }),
            *final(self) == *final(toast),
    {
        self.closable = options.closable;
        self.duration = options.duration;
        self.level = options.level;
        self
    }

    /// Change the level of the toast
    pub fn level(&mut self, level: ToastLevel) -> (toast: &mut Self)
        ensures
            *toast == (Toast { level, ..*old(self) }),
            *final(self) == *final(toast),
    {
        self.level = level;
        self
    }

    /// Can the user close the toast?
    pub fn closable(&mut self, closable: bool) -> (toast: &mut Self)
        ensures
            *toast == (Toast { closable, ..*old(self) }),
            *final(self) == *final(toast),
    {
        self.closable = closable;
        self
    }

    /// Should a progress bar be shown?
    pub fn show_progress_bar(&mut self, show_progress_bar: bool) -> (toast: &mut Self)
        ensures
            *toast == (Toast { show_progress_bar, ..*old(self) }),
            *final(self) == *final(toast),
    {
        self.show_progress_bar = show_progress_bar;
        self
    }

    /// In what time should the toast expire? Set to `None` for no expiry.
    pub fn duration(&mut self, duration: Option<Duration>) -> (toast: &mut Self)
        ensures
            *toast == (Toast { duration, ..*old(self) }),
            *final(self) == *final(toast),
    {
        self.duration = duration;
        self
    }

    /// Dismiss this toast
    pub fn dismiss(&mut self)
        ensures
            *final(self) == (Toast { state: ToastState::Disappear, ..*old(self) }),
    {
        self.state = ToastState::Disappear;
    }
}

} // verus!
