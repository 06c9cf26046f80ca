//! Playback window settings.

use vstd::prelude::*;
use crate::catchup::{
    civil_of_start, is_available, request_in_range, spec_mode, spec_url_for, url_for, Mode,
    Request,
};
use crate::civil::Civil;
use crate::text::{append_str, decimal, push_decimal, string_of};

verus! {

/// Network buffer for a stream: live TV keeps a shallow one so it stays near the live
/// edge; films and episodes buffer deeper.
pub fn cache_secs_for(is_live: bool) -> (r: u32)
    ensures
        r == if is_live { 8u32 } else { 30u32 },
{
    if is_live {
        8
    } else {
        30
    }
}

/// Where a channel's catch-up configuration lives.
#[derive(Debug, Clone)]
pub struct CatchupChannel {
    pub name: String,
    pub stream_url: String,
    pub mode: Option<String>,
    pub source: Option<String>,
    pub days: u16,
}

/// The catch-up request a channel makes for a programme: its stream URL, its mode and
/// its source template, and the programme's times.
pub open spec fn request_for(req: Request, ch: CatchupChannel, start: i64, stop: i64, now: i64) -> bool {
    &&& req.stream_url@ == ch.stream_url@
    &&& Some(req.mode) == spec_mode(crate::text::opt_view(ch.mode)->0)
    &&& crate::lang::str_option(req.source) == crate::text::opt_view(ch.source)
    &&& req.start == start
    &&& req.stop == stop
    &&& req.now == now
}

/// Why a programme cannot be watched from the start, as the viewer reads it; `None`
/// when it can, in which case the URL is the catch-up request for it.
pub open spec fn catchup_refusal(name: Seq<char>, mode: Option<Seq<char>>, days: u16, start: i64, now: i64) -> Option<Seq<char>> {
    if (match mode {
        Some(m) => spec_mode(m),
        None => None,
    }) is None {
        Some(name + " does not offer catch-up"@)
    } else if !(start <= now && (days == 0 || now - start <= days * 86400)) {
        if start > now {
            Some(name + " has not aired yet"@)
        } else {
            Some("That programme is outside "@ + name + "'s "@ + decimal(days as nat) + "-day catch-up window"@)
        }
    } else {
        None
    }
}

/// The catch-up request for a channel's programme, or why there is none: the channel
/// must name a catch-up mode, the programme must have aired and be inside the
/// provider's window, and the mode must be able to build a URL from the stream URL.
pub fn catchup_url(ch: &CatchupChannel, start: i64, stop: i64, now: i64) -> (r: Result<String, String>)
    requires
        i64::MIN <= stop - start <= i64::MAX - 59,
        i64::MIN <= now - start <= i64::MAX,
    ensures
        match catchup_refusal(ch.name@, crate::text::opt_view(ch.mode), ch.days, start, now) {
            Some(m) => r matches Err(e) && e@ == m,
            None => exists|req: Request<'static>, c: Option<Civil>|
                #![trigger spec_url_for(req, c)]
                {
                    &&& request_for(req, *ch, start, stop, now)
                    &&& civil_of_start(req, c)
                    &&& match spec_url_for(req, c) {
                        Some(u) => r matches Ok(x) && x@ == u,
                        None => r matches Err(e) && e@ == ch.name@
                            + " says it has catch-up but not how to request it"@,
                    }
                },
        },
{
    let mode = match &ch.mode {
        Some(m) => Mode::parse(m.as_str()),
        None => None,
    };
    let mode = match mode {
        Some(m) => m,
        None => {
            let mut out: Vec<char> = Vec::new();
            append_str(&mut out, ch.name.as_str());
            append_str(&mut out, " does not offer catch-up");
            return Err(string_of(out.as_slice()));
        },
    };
    if !is_available(start, now, ch.days) {
        let mut out: Vec<char> = Vec::new();
        if start > now {
            append_str(&mut out, ch.name.as_str());
            append_str(&mut out, " has not aired yet");
        } else {
            append_str(&mut out, "That programme is outside ");
            append_str(&mut out, ch.name.as_str());
            append_str(&mut out, "'s ");
            push_decimal(&mut out, ch.days as u64);
            append_str(&mut out, "-day catch-up window");
        }
        return Err(string_of(out.as_slice()));
    }
    let source = match &ch.source {
        Some(s) => Some(s.as_str()),
        None => None,
    };
    let req = Request { stream_url: ch.stream_url.as_str(), mode, source, start, stop, now };
    match url_for(&req) {
        Some(u) => Ok(u),
        None => {
            let mut out: Vec<char> = Vec::new();
            append_str(&mut out, ch.name.as_str());
            append_str(&mut out, " says it has catch-up but not how to request it");
            Err(string_of(out.as_slice()))
        },
    }
}

} // verus!
