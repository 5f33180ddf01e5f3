//! The uniform response shape every exposed operation answers with.

use vstd::prelude::*;

use crate::codec::ChannelConfig;

verus! {

/// An operation's answer: a success flag, a message on failure, and at most
/// one payload.
pub struct ApiResponse<T> {
    pub success: bool,
    pub error: Option<String>,
    pub channels: Option<Vec<(String, ChannelConfig)>>,
    pub config: Option<ChannelConfig>,
    pub data: Option<T>,
}

impl ApiResponse<()> {
    /// A bare success.
    pub fn success() -> (r: ApiResponse<()>)
        ensures
            r.success,
            r.error is None,
            r.channels is None,
            r.config is None,
            r.data is None,
    {
        ApiResponse { success: true, error: None, channels: None, config: None, data: None }
    }

    /// A success carrying a channel listing.
    pub fn success_with_channels(channels: Vec<(String, ChannelConfig)>) -> (r: ApiResponse<()>)
        ensures
            r.success,
            r.error is None,
            r.channels == Some(channels),
            r.config is None,
            r.data is None,
    {
        ApiResponse {
            success: true,
            error: None,
            channels: Some(channels),
            config: None,
            data: None,
        }
    }

    /// A success carrying one channel's payload.
    pub fn success_with_config(config: ChannelConfig) -> (r: ApiResponse<()>)
        ensures
            r.success,
            r.error is None,
            r.channels is None,
            r.config == Some(config),
            r.data is None,
    {
        ApiResponse {
            success: true,
            error: None,
            channels: None,
            config: Some(config),
            data: None,
        }
    }

    /// A failure carrying its message.
    pub fn error(error: String) -> (r: ApiResponse<()>)
        ensures
            !r.success,
            r.error == Some(error),
            r.channels is None,
            r.config is None,
            r.data is None,
    {
        ApiResponse {
            success: false,
            error: Some(error),
            channels: None,
            config: None,
            data: None,
        }
    }
}

impl<T> ApiResponse<T> {
    /// A success carrying an operation-specific payload.
    pub fn success_with_data(data: T) -> (r: ApiResponse<T>)
        ensures
            r.success,
            r.error is None,
            r.channels is None,
            r.config is None,
            r.data == Some(data),
    {
        ApiResponse { success: true, error: None, channels: None, config: None, data: Some(data) }
    }
}

} // verus!
