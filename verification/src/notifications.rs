//! Notification content for the editor's surrounding desktop shell: which
//! localisation keys and severity each notification kind carries, and whether
//! a notification should be presented at all given the user's setting. The
//! shell itself delivers the toast, the event and the sound; this module only
//! decides the content.

use vstd::prelude::*;

verus! {

/// The kinds of notification the surrounding shell raises on save, copy and
/// upload events.
#[derive(Clone, Copy, PartialEq, Eq, Structural, Debug)]
pub enum NotificationType {
    VideoSaved,
    VideoCopiedToClipboard,
    ShareableLinkCopied,
    UploadFailed,
    VideoSaveFailed,
    VideoCopyFailed,
    ShareableLinkFailed,
    ScreenshotSaved,
    ScreenshotCopiedToClipboard,
    ScreenshotSaveFailed,
    ScreenshotCopyFailed,
}

impl NotificationType {
    /// The localisation key of the notification's title.
    pub open spec fn spec_title_key(self) -> Seq<char> {
        match self {
            NotificationType::VideoSaved => "notifications.videoSaved.title"@,
            NotificationType::VideoCopiedToClipboard => "notifications.videoCopied.title"@,
            NotificationType::ShareableLinkCopied => "notifications.linkCopied.title"@,
            NotificationType::UploadFailed => "notifications.uploadFailed.title"@,
            NotificationType::VideoSaveFailed => "notifications.videoSaveFailed.title"@,
            NotificationType::VideoCopyFailed => "notifications.videoCopyFailed.title"@,
            NotificationType::ShareableLinkFailed => "notifications.shareFailed.title"@,
            NotificationType::ScreenshotSaved => "notifications.screenshotSaved.title"@,
            NotificationType::ScreenshotCopiedToClipboard => "notifications.screenshotCopied.title"@,
            NotificationType::ScreenshotSaveFailed => "notifications.screenshotSaveFailed.title"@,
            NotificationType::ScreenshotCopyFailed => "notifications.screenshotCopyFailed.title"@,
        }
    }

    /// The localisation key of the notification's body.
    pub open spec fn spec_body_key(self) -> Seq<char> {
        match self {
            NotificationType::VideoSaved => "notifications.videoSaved.body"@,
            NotificationType::VideoCopiedToClipboard => "notifications.videoCopied.body"@,
            NotificationType::ShareableLinkCopied => "notifications.linkCopied.body"@,
            NotificationType::UploadFailed => "notifications.uploadFailed.body"@,
            NotificationType::VideoSaveFailed => "notifications.videoSaveFailed.body"@,
            NotificationType::VideoCopyFailed => "notifications.videoCopyFailed.body"@,
            NotificationType::ShareableLinkFailed => "notifications.shareFailed.body"@,
            NotificationType::ScreenshotSaved => "notifications.screenshotSaved.body"@,
            NotificationType::ScreenshotCopiedToClipboard => "notifications.screenshotCopied.body"@,
            NotificationType::ScreenshotSaveFailed => "notifications.screenshotSaveFailed.body"@,
            NotificationType::ScreenshotCopyFailed => "notifications.screenshotCopyFailed.body"@,
        }
    }

    /// Whether the notification reports a failure.
    pub open spec fn spec_is_error(self) -> bool {
        match self {
            NotificationType::UploadFailed => true,
            NotificationType::VideoSaveFailed => true,
            NotificationType::VideoCopyFailed => true,
            NotificationType::ShareableLinkFailed => true,
            NotificationType::ScreenshotSaveFailed => true,
            NotificationType::ScreenshotCopyFailed => true,
            _ => false,
        }
    }

    /// The free-text message shown where no localisation is available.
    pub open spec fn spec_message(self) -> Seq<char> {
        match self {
            NotificationType::UploadFailed => "Failed to upload your video after multiple attempts. Please try again later."@,
            _ => ""@,
        }
    }

    /// The free-text title shown where no localisation is available.
    pub open spec fn spec_title(self) -> Seq<char> {
        match self {
            NotificationType::UploadFailed => "Upload Failed"@,
            _ => ""@,
        }
    }

    /// The localisation keys of title and body, and whether the notification
    /// reports a failure.
    pub fn details(&self) -> (r: (&'static str, &'static str, bool))
        ensures
            r.0@ == self.spec_title_key(),
            r.1@ == self.spec_body_key(),
            r.2 == self.spec_is_error(),
    {
        match self {
            NotificationType::VideoSaved => (
                "notifications.videoSaved.title",
                "notifications.videoSaved.body",
                false,
            ),
            NotificationType::VideoCopiedToClipboard => (
                "notifications.videoCopied.title",
                "notifications.videoCopied.body",
                false,
            ),
            NotificationType::ShareableLinkCopied => (
                "notifications.linkCopied.title",
                "notifications.linkCopied.body",
                false,
            ),
            NotificationType::UploadFailed => (
                "notifications.uploadFailed.title",
                "notifications.uploadFailed.body",
                true,
            ),
            NotificationType::VideoSaveFailed => (
                "notifications.videoSaveFailed.title",
                "notifications.videoSaveFailed.body",
                true,
            ),
            NotificationType::VideoCopyFailed => (
                "notifications.videoCopyFailed.title",
                "notifications.videoCopyFailed.body",
                true,
            ),
            NotificationType::ShareableLinkFailed => (
                "notifications.shareFailed.title",
                "notifications.shareFailed.body",
                true,
            ),
            NotificationType::ScreenshotSaved => (
                "notifications.screenshotSaved.title",
                "notifications.screenshotSaved.body",
                false,
            ),
            NotificationType::ScreenshotCopiedToClipboard => (
                "notifications.screenshotCopied.title",
                "notifications.screenshotCopied.body",
                false,
            ),
            NotificationType::ScreenshotSaveFailed => (
                "notifications.screenshotSaveFailed.title",
                "notifications.screenshotSaveFailed.body",
                true,
            ),
            NotificationType::ScreenshotCopyFailed => (
                "notifications.screenshotCopyFailed.title",
                "notifications.screenshotCopyFailed.body",
                true,
            ),
        }
    }

    /// The free-text message of the notification; non-empty only for the
    /// upload failure.
    pub fn message(&self) -> (r: &'static str)
        ensures
            r@ == self.spec_message(),
    {
        match self {
            NotificationType::UploadFailed => {
                "Failed to upload your video after multiple attempts. Please try again later."
            },
            _ => "",
        }
    }

    /// The free-text title of the notification; non-empty only for the
    /// upload failure.
    pub fn title(&self) -> (r: &'static str)
        ensures
            r@ == self.spec_title(),
    {
        match self {
            NotificationType::UploadFailed => "Upload Failed",
            _ => "",
        }
    }
}

/// What the shell should present for a notification: the title key, body key
/// and error flag when the user has notifications enabled, and nothing
/// otherwise. The shell passes the setting in explicitly (an unreadable or
/// absent settings store counts as disabled) and delivers the result.
pub fn notification_payload(kind: &NotificationType, notifications_enabled: bool) -> (r: Option<
    (&'static str, &'static str, bool),
>)
    ensures
        notifications_enabled <==> r is Some,
        match r {
            Some(p) => {
                &&& p.0@ == kind.spec_title_key()
                &&& p.1@ == kind.spec_body_key()
                &&& p.2 == kind.spec_is_error()
            },
            None => !notifications_enabled,
        },
{
    if notifications_enabled {
        Some(kind.details())
    } else {
        None
    }
}

} // verus!
