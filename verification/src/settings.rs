//! Eager validation of a stream's configuration, before any expensive work.
//! The caller reduces its raw arguments to the plain facts checked here (the
//! file-system probes and the frame-rate sign are its business); the rules
//! themselves, and which error each violation raises, are pinned down here.

use crate::protocol::Protocol;
use crate::Error;
use vstd::prelude::*;

verus! {

/// One named send target from the configuration: where to connect, which
/// wire format to speak, and which canvas to draw on.
#[derive(Debug, Clone, PartialEq, Eq)]
pub struct Target {
    pub host: String,
    pub protocol: Protocol,
    pub canvas: u8,
}

/// The plain facts the argument rules judge.
#[derive(Debug, Clone, PartialEq, Eq)]
pub struct ArgsCheck {
    /// The input path is the empty string.
    pub input_empty: bool,
    /// The input path names an existing file-system entry.
    pub input_exists: bool,
    /// The input path names a regular file.
    pub input_is_file: bool,
    pub width: Option<i32>,
    pub height: Option<i32>,
    /// Whether the requested frame rate is positive; absent when the source
    /// rate is used.
    pub fps_positive: Option<bool>,
    pub send_threads: usize,
    pub compress_threads: usize,
    pub has_host: bool,
    pub has_target: bool,
    pub aot_frame_group_size: usize,
}

/// Whether the arguments themselves are acceptable: dimensions not negative,
/// a positive frame rate, and an input path that names a regular file.
pub open spec fn args_acceptable(a: ArgsCheck) -> bool {
    &&& !(a.width matches Some(w) && w < 0)
    &&& !(a.height matches Some(h) && h < 0)
    &&& !(a.fps_positive matches Some(p) && !p)
    &&& !a.input_empty
    &&& a.input_exists
    &&& a.input_is_file
}

/// Whether the configuration is acceptable: worker pools not empty, a
/// destination named, and a positive chunk size.
pub open spec fn config_acceptable(a: ArgsCheck) -> bool {
    &&& a.send_threads > 0
    &&& a.compress_threads > 0
    &&& a.has_host || a.has_target
    &&& a.aot_frame_group_size > 0
}

/// Validates a stream's configuration eagerly: succeeds exactly when both the
/// arguments and the configuration are acceptable; a bad argument raises an
/// argument error, a bad configuration a configuration error.
pub fn verify_args(a: &ArgsCheck) -> (r: Result<(), Error>)
    ensures
        r is Ok <==> args_acceptable(*a) && config_acceptable(*a),
        r matches Err(e) ==> {
            &&& (e is InvalidArgs <==> !args_acceptable(*a))
            &&& (e is InvalidConfig <==> args_acceptable(*a) && !config_acceptable(*a))
        },
{
    if match a.width {
        Some(w) => w < 0,
        Option::None => false,
    } {
        return Err(Error::InvalidArgs("--width must be positive".to_owned()));
    }
    if match a.height {
        Some(h) => h < 0,
        Option::None => false,
    } {
        return Err(Error::InvalidArgs("--height must be positive".to_owned()));
    }
    if match a.fps_positive {
        Some(p) => !p,
        Option::None => false,
    } {
        return Err(Error::InvalidArgs("--fps must be greater than 0.0".to_owned()));
    }
    if a.input_empty {
        return Err(Error::InvalidArgs("No input file specified".to_owned()));
    }
    if !a.input_exists {
        return Err(Error::InvalidArgs("Input file does not exist".to_owned()));
    }
    if !a.input_is_file {
        return Err(Error::InvalidArgs("Input file is not a file".to_owned()));
    }
    if a.send_threads == 0 {
        return Err(Error::InvalidConfig("send_threads must be greater than 0".to_owned()));
    }
    if a.compress_threads == 0 {
        return Err(Error::InvalidConfig("compress_threads must be greater than 0".to_owned()));
    }
    if !a.has_host && !a.has_target {
        return Err(Error::InvalidConfig("host or target must be specified".to_owned()));
    }
    if a.aot_frame_group_size == 0 {
        return Err(
            Error::InvalidConfig("aot_frame_group_size must be greater than 0".to_owned()),
        );
    }
    Ok(())
}

} // verus!
