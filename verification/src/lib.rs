//! Core engine of a recording editor: an ordered, non-overlapping timeline of
//! segments mapping edited time to source-media time, an audio renderer that
//! produces crossfaded PCM for any edited-time window, a playback clock state
//! machine, and the editor instance that owns the current snapshot, its
//! history, and the command surface.

mod audio;
mod editor_instance;
mod notifications;
mod playback;
mod segments;

pub use notifications::NotificationType;
pub use notifications::notification_payload;

pub use editor_instance::EditorInstance;
pub use editor_instance::EditorState;
pub use editor_instance::SegmentMedia;
pub use editor_instance::create_segments;

pub use audio::AudioRenderer;
pub use audio::AudioSource;
pub use audio::RenderOutput;

pub use playback::PlayState;
pub use playback::PlaybackClock;

pub use audio::AMP_LIMIT;
pub use audio::MAX_SAMPLE_RATE;
pub use audio::lemma_crossfade_continuity;
pub use audio::lemma_crossfade_step_bound;
pub use audio::lemma_render_deterministic;
pub use audio::lemma_split_renders_seamlessly;
pub use editor_instance::HISTORY_LIMIT;
pub use segments::EditError;
pub use segments::MAX_TIME_TICKS;
pub use segments::Segment;
pub use segments::SegmentTimeline;
pub use segments::TICKS_PER_SECOND;
pub use segments::TimeRange;
pub use segments::get_audio_segments;
pub use segments::lemma_edited_time_covered;
pub use segments::lemma_split_merge_round_trip;
pub use segments::lemma_total_duration_is_sum_of_durations;
