//! The values shared by every part of the library: accounts, candidate URLs,
//! records and errors.

use vstd::prelude::*;

use crate::disk_cache::DiskCacheError;

verus! {

/// The game (service) that an account or a record belongs to.
#[derive(Debug, Clone, Copy, PartialEq, Eq, Structural)]
pub enum AccountFacet {
    Genshin,
    StarRail,
    WutheringWaves,
}

/// A request URL recovered from the game's cache or logs.
#[derive(Debug)]
pub struct GachaUrl {
    /// The cache address the URL was found at, if it came from the disk cache.
    pub addr: Option<u32>,
    /// When the cache entry was created, in seconds since 1970-01-01 00:00 UTC.
    pub creation_time: i64,
    pub value: String,
}

/// What a [`GachaUrl`] holds, in mathematical terms.
pub struct GachaUrlView {
    pub addr: Option<u32>,
    pub creation_time: i64,
    pub value: Seq<char>,
}

impl View for GachaUrl {
    type V = GachaUrlView;

    open spec fn view(&self) -> GachaUrlView {
        GachaUrlView { addr: self.addr, creation_time: self.creation_time, value: self.value@ }
    }
}

/// The views of a sequence of URLs.
pub open spec fn url_views(v: Seq<GachaUrl>) -> Seq<GachaUrlView> {
    v.map_values(|u: GachaUrl| u@)
}

impl Clone for GachaUrl {
    fn clone(&self) -> (r: GachaUrl)
        ensures
            r@ == self@,
    {
        GachaUrl { addr: self.addr, creation_time: self.creation_time, value: self.value.clone() }
    }
}

/// Seconds in one day: how long a URL is trusted after its creation.
pub const URL_LIFETIME_SECONDS: i64 = 86_400;

/// A URL created at `created` is still fresh at `now`.
pub open spec fn is_fresh(created: i64, now: i64) -> bool {
    created + URL_LIFETIME_SECONDS > now
}

/// Whether a URL created at `created` is still fresh at `now`.
pub fn fresh_at(created: i64, now: i64) -> (r: bool)
    ensures
        r == is_fresh(created, now),
{
    (created as i128) + (URL_LIFETIME_SECONDS as i128) > now as i128
}

/// Why an operation of the library failed.
#[derive(Debug, PartialEq, Eq)]
pub enum Error {
    /// The cache files could not be decoded.
    DiskCache(DiskCacheError),
    /// No versioned cache directory was found.
    WebCaches,
    /// The URL lacks the endpoint or a required query parameter.
    IllegalGachaUrl,
    /// The service reports that the URL's authorisation has expired.
    TimedOutGachaUrl,
    /// The service answered with a non-zero status code.
    GachaRecordRetcode { retcode: i32, message: String },
    /// No candidate URL belongs to the requested account.
    VacantGachaUrl,
}

/// Status code by which the service reports an expired authorisation.
pub const RETCODE_TIMED_OUT: i32 = -101;

/// Maps a response's status code to success or to the error it stands for;
/// a missing code counts as zero.
pub fn check_retcode(retcode: Option<i32>, message: String) -> (r: Result<(), Error>)
    ensures
        match retcode {
            None => r is Ok,
            Some(c) => if c == 0 {
                r is Ok
            } else if c == RETCODE_TIMED_OUT {
                r == Err::<(), Error>(Error::TimedOutGachaUrl)
            } else {
                r == Err::<(), Error>(Error::GachaRecordRetcode { retcode: c, message })
            },
        },
{
    let code = match retcode {
        Some(c) => c,
        None => 0,
    };
    if code == 0 {
        Ok(())
    } else if code == RETCODE_TIMED_OUT {
        Err(Error::TimedOutGachaUrl)
    } else {
        Err(Error::GachaRecordRetcode { retcode: code, message })
    }
}

} // verus!
