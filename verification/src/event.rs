//! The domain events the pipeline delivers, and the payload type carried by
//! the producer-to-worker channel.
use vstd::prelude::*;
use crate::track::ConfigError;
use crate::track::TrackInfo;
use crate::track::TrackInfoError;

verus! {

/// New delivery endpoint and signing secret, read from the host's
/// configuration when it announced a change.
#[derive(Debug)]
pub struct EventConfigChanged {
    pub url: String,
    pub secret: String,
}

/// A track began playing.
#[derive(Debug)]
pub struct EventStart {
    pub track_info: TrackInfo,
}

/// A track stopped playing: how many milliseconds of it actually played, and
/// the Unix timestamp at which this playback began.
#[derive(Debug)]
pub struct EventStop {
    pub track_info: TrackInfo,
    pub play_time_millis: u64,
    pub started_at: i64,
}

/// One domain event. `Stop` here means "a track stopped"; it is distinct
/// from the shutdown sentinel `Payload::Stop`.
#[derive(Debug)]
pub enum Event {
    ConfigChanged(EventConfigChanged),
    Start(EventStart),
    Stop(EventStop),
}

/// Failure to build an `Event` from a host callback.
#[derive(Debug)]
pub enum EventError {
    ReadConfig(ConfigError),
    NoContext,
    ReadTrackInfo(TrackInfoError),
}

} // verus!
