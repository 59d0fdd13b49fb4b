//! Notification content and the enabled gate.

use editor_core::NotificationType;
use editor_core::notification_payload;

#[test]
fn details_carry_localisation_keys_and_severity() {
    let (title, body, is_error) = NotificationType::VideoSaved.details();
    assert_eq!(title, "notifications.videoSaved.title");
    assert_eq!(body, "notifications.videoSaved.body");
    assert!(!is_error);

    let (title, body, is_error) = NotificationType::UploadFailed.details();
    assert_eq!(title, "notifications.uploadFailed.title");
    assert_eq!(body, "notifications.uploadFailed.body");
    assert!(is_error);

    let (title, body, is_error) = NotificationType::ScreenshotCopiedToClipboard.details();
    assert_eq!(title, "notifications.screenshotCopied.title");
    assert_eq!(body, "notifications.screenshotCopied.body");
    assert!(!is_error);

    let (title, body, is_error) = NotificationType::ShareableLinkFailed.details();
    assert_eq!(title, "notifications.shareFailed.title");
    assert_eq!(body, "notifications.shareFailed.body");
    assert!(is_error);
}

#[test]
fn message_and_title_are_set_only_for_upload_failure() {
    assert_eq!(
        NotificationType::UploadFailed.message(),
        "Failed to upload your video after multiple attempts. Please try again later."
    );
    assert_eq!(NotificationType::UploadFailed.title(), "Upload Failed");
    assert_eq!(NotificationType::VideoSaved.message(), "");
    assert_eq!(NotificationType::VideoSaved.title(), "");
    assert_eq!(NotificationType::ScreenshotSaveFailed.message(), "");
    assert_eq!(NotificationType::ScreenshotSaveFailed.title(), "");
}

#[test]
fn payload_respects_the_enabled_setting() {
    let p = notification_payload(&NotificationType::VideoCopiedToClipboard, true).unwrap();
    assert_eq!(p.0, "notifications.videoCopied.title");
    assert_eq!(p.1, "notifications.videoCopied.body");
    assert!(!p.2);
    assert!(notification_payload(&NotificationType::VideoCopiedToClipboard, false).is_none());
    assert!(notification_payload(&NotificationType::UploadFailed, false).is_none());
}
