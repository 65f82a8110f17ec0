use video_preview::toast::ToastState;

#[test]
fn appearing_is_true_of_appear_only() {
    assert!(ToastState::Appear.appearing());
    assert!(!ToastState::Disappear.appearing());
    assert!(!ToastState::Disappeared.appearing());
    assert!(!ToastState::Idle.appearing());
}

#[test]
fn disappearing_is_true_of_disappear_only() {
    assert!(!ToastState::Appear.disappearing());
    assert!(ToastState::Disappear.disappearing());
    assert!(!ToastState::Disappeared.disappearing());
    assert!(!ToastState::Idle.disappearing());
}

#[test]
fn disappeared_is_true_of_disappeared_only() {
    assert!(!ToastState::Appear.disappeared());
    assert!(!ToastState::Disappear.disappeared());
    assert!(ToastState::Disappeared.disappeared());
    assert!(!ToastState::Idle.disappeared());
}

#[test]
fn idling_is_true_of_idle_only() {
    assert!(!ToastState::Appear.idling());
    assert!(!ToastState::Disappear.idling());
    assert!(!ToastState::Disappeared.idling());
    assert!(ToastState::Idle.idling());
}
