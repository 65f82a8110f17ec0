use egui::Color32;
use egui::WidgetText;
use std::time::Duration;
use video_preview::toast::Toast;
use video_preview::toast::ToastLevel;
use video_preview::toast::ToastOptions;
use video_preview::toast::ToastState;

fn says(toast: &Toast, caption: &str) -> bool {
    toast.caption.text() == caption
}

#[test]
fn default_level_is_info() {
    assert_eq!(ToastLevel::default(), ToastLevel::Info);
}

#[test]
fn default_options_stay_three_and_a_half_seconds() {
    let options = ToastOptions::default();
    assert_eq!(options.duration, Some(Duration::from_millis(3500)));
    assert_eq!(options.level, ToastLevel::Plain);
    assert!(options.closable);
    assert!(options.show_progress_bar);
}

#[test]
fn basic_toast_has_no_level_and_can_be_closed() {
    let toast = Toast::basic(WidgetText::from("saved"));
    assert!(says(&toast, "saved"));
    assert_eq!(toast.level, ToastLevel::Plain);
    assert_eq!(toast.duration, Some(Duration::from_millis(3500)));
    assert!(toast.closable);
    assert!(toast.show_progress_bar);
    assert!(toast.state.appearing());
}

#[test]
fn toasts_of_a_level_have_it() {
    let toast = Toast::success(WidgetText::from("done"));
    assert_eq!(toast.level, ToastLevel::Success);
    assert!(toast.closable);
    let toast = Toast::info(WidgetText::from("note"));
    assert_eq!(toast.level, ToastLevel::Info);
    assert!(toast.closable);
    let toast = Toast::warning(WidgetText::from("mind"));
    assert_eq!(toast.level, ToastLevel::Warning);
    assert!(toast.closable);
    assert!(says(&toast, "mind"));
    assert_eq!(toast.duration, Some(Duration::from_millis(3500)));
    assert!(toast.show_progress_bar);
    assert!(toast.state.appearing());
}

#[test]
fn error_toast_cannot_be_closed() {
    let toast = Toast::error(WidgetText::from("failed"));
    assert_eq!(toast.level, ToastLevel::Error);
    assert!(!toast.closable);
    assert_eq!(toast.duration, Some(Duration::from_millis(3500)));
    assert!(toast.show_progress_bar);
    assert!(toast.state.appearing());
}

#[test]
fn custom_toast_keeps_its_level() {
    let level = ToastLevel::Custom("sync".to_string(), Color32::from_rgb(1, 2, 3));
    let toast = Toast::custom(WidgetText::from("syncing"), level.clone());
    assert_eq!(toast.level, level);
    assert_eq!(toast.level, ToastLevel::Custom("sync".to_string(), Color32::from_rgb(1, 2, 3)));
    assert_ne!(toast.level, ToastLevel::Custom("sync".to_string(), Color32::from_rgb(1, 2, 4)));
    assert!(toast.closable);
}

#[test]
fn setters_change_one_thing_each() {
    let mut toast = Toast::basic(WidgetText::from("x"));
    toast.level(ToastLevel::Warning);
    assert_eq!(toast.level, ToastLevel::Warning);
    assert!(toast.closable && toast.show_progress_bar);
    toast.closable(false);
    assert!(!toast.closable);
    assert!(toast.show_progress_bar);
    toast.show_progress_bar(false);
    assert!(!toast.show_progress_bar);
    assert_eq!(toast.level, ToastLevel::Warning);
    toast.duration(None);
    assert_eq!(toast.duration, None);
    toast.duration(Some(Duration::from_secs(9)));
    assert_eq!(toast.duration, Some(Duration::from_secs(9)));
    assert!(says(&toast, "x"));
    assert!(toast.state.appearing());
}

#[test]
fn setters_can_be_chained() {
    let mut toast = Toast::info(WidgetText::from("x"));
    toast.level(ToastLevel::Error).closable(false).duration(None).show_progress_bar(false);
    assert_eq!(toast.level, ToastLevel::Error);
    assert!(!toast.closable);
    assert_eq!(toast.duration, None);
    assert!(!toast.show_progress_bar);
}

#[test]
fn options_set_all_but_the_progress_bar() {
    let mut toast = Toast::basic(WidgetText::from("x"));
    toast.options(ToastOptions {
        duration: None,
        level: ToastLevel::Success,
        closable: false,
        show_progress_bar: false,
    });
    assert_eq!(toast.duration, None);
    assert_eq!(toast.level, ToastLevel::Success);
    assert!(!toast.closable);
    assert!(toast.show_progress_bar);
}

#[test]
fn dismiss_makes_the_toast_disappear() {
    let mut toast = Toast::basic(WidgetText::from("x"));
    assert!(matches!(toast.state, ToastState::Appear));
    toast.dismiss();
    assert!(toast.state.disappearing());
    assert!(!toast.state.disappeared());
    assert_eq!(toast.level, ToastLevel::Plain);
    assert!(says(&toast, "x"));
}
