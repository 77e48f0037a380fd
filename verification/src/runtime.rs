//! What a host and its client check before they work together.

use crate::bridge::Session;
use crate::scalar::Scalar;
use vstd::prelude::*;

verus! {

/// Bits of the default width, 800.
pub const DEFAULT_WIDTH: u32 = 0x4448_0000;

/// Bits of the default height, 600.
pub const DEFAULT_HEIGHT: u32 = 0x4416_0000;

/// Version of the runtime interface.
pub const RUNTIME_VERSION: u32 = 1;

/// Options of a host, as given.
#[derive(Clone, Debug)]
pub struct HostOptions {
    pub title: Option<String>,
    pub width: Option<Scalar>,
    pub height: Option<Scalar>,
}

/// Options of a host, checked.
#[derive(Clone, Debug)]
pub struct HostSetup {
    pub title: String,
    pub width: Scalar,
    pub height: Scalar,
}

/// A positive number that is not infinite.
pub open spec fn usable(x: Scalar) -> bool {
    0 < x.0 < 0x7F80_0000
}

pub open spec fn or_default(x: Option<Scalar>, bits: u32) -> Scalar {
    match x {
        Some(v) => v,
        None => Scalar(bits),
    }
}

pub open spec fn title_of(title: Option<String>) -> Seq<char> {
    match title {
        Some(t) => t@,
        None => "Craie"@,
    }
}

/// Why a host cannot be made, if it cannot.
pub open spec fn host_error(on_main: bool, running: bool, options: HostOptions) -> Option<
    Seq<char>,
> {
    if !on_main {
        Some("NativeHost requires the main thread"@)
    } else if running {
        Some("A native host is already active"@)
    } else if !usable(or_default(options.width, DEFAULT_WIDTH)) || !usable(
        or_default(options.height, DEFAULT_HEIGHT),
    ) {
        Some("Window dimensions must be finite and positive"@)
    } else {
        None
    }
}

/// Checks what a host was asked for, and fills in what was left out.
pub fn host_setup(on_main: bool, running: bool, options: HostOptions) -> (r: Result<
    HostSetup,
    String,
>)
    ensures
        match host_error(on_main, running, options) {
            Some(why) => r matches Err(e) && e@ == why,
            None => {
                &&& r matches Ok(s)
                &&& s.width == or_default(options.width, DEFAULT_WIDTH)
                &&& s.height == or_default(options.height, DEFAULT_HEIGHT)
                &&& s.title@ == title_of(options.title)
            },
        },
{
    if !on_main {
        return Err("NativeHost requires the main thread".to_owned());
    }
    if running {
        return Err("A native host is already active".to_owned());
    }
    let width: Scalar = match options.width {
        Some(w) => w,
        None => Scalar(DEFAULT_WIDTH),
    };
    let height: Scalar = match options.height {
        Some(h) => h,
        None => Scalar(DEFAULT_HEIGHT),
    };
    if width.0 == 0 || width.0 >= 0x7F80_0000 || height.0 == 0 || height.0 >= 0x7F80_0000 {
        return Err("Window dimensions must be finite and positive".to_owned());
    }
    let title: String = match options.title {
        Some(t) => t,
        None => "Craie".to_owned(),
    };
    Ok(HostSetup { title, width, height })
}

/// Why a client cannot attach, if it cannot.
pub open spec fn client_error(on_main: bool, found: bool, closed: bool) -> Option<Seq<char>> {
    if on_main {
        Some("NativeClient must run on the application worker"@)
    } else if !found {
        Some("Unknown native session"@)
    } else if closed {
        Some("Native session is closed"@)
    } else {
        None
    }
}

/// Checks that a client may attach to a session. `closed` is what was found
/// under its id: whether that session has ended.
pub fn attach(on_main: bool, closed: Option<bool>) -> (r: Result<(), String>)
    ensures
        match client_error(on_main, closed is Some, closed == Some(true)) {
            Some(why) => r matches Err(e) && e@ == why,
            None => r is Ok,
        },
{
    if on_main {
        return Err("NativeClient must run on the application worker".to_owned());
    }
    match closed {
        None => Err("Unknown native session".to_owned()),
        Some(true) => Err("Native session is closed".to_owned()),
        Some(false) => Ok(()),
    }
}

/// Why a session is over whose loop has run out.
pub open spec fn end_reason(closed: Option<Seq<char>>) -> Seq<char> {
    match closed {
        Some(why) => why,
        None => "Native window closed"@,
    }
}

/// Ends the session of a loop that has run out, and tells why it ended: the
/// reason it has, or that the window was closed.
pub fn wind_up(session: &mut Session) -> (reason: String)
    requires
        old(session).wf(),
    ensures
        final(session).wf(),
        reason@ == end_reason(old(session).model().closed),
        final(session).model() == old(session).model().ended(reason@),
        final(session).model().closed == Some(reason@),
{
    let reason: String = match session.closed_reason() {
        Some(why) => why,
        None => "Native window closed".to_owned(),
    };
    session.close(reason.clone());
    reason
}

/// What the window surface gave for a frame.
#[derive(Clone, Copy, Debug, PartialEq, Eq, Structural)]
pub enum SurfaceState {
    /// A texture to draw into.
    Ready,
    /// The surface no longer fits the window, or is gone.
    Stale,
    /// Hidden, or not in time.
    Unavailable,
}

/// What a redraw does.
#[derive(Clone, Copy, Debug, PartialEq, Eq, Structural)]
pub enum Frame {
    Draw,
    /// Configure the surface anew and ask for another redraw.
    Reconfigure,
    Skip,
}

/// What a redraw does for a window of this size.
pub open spec fn frame_for(width: u32, height: u32, state: SurfaceState) -> Frame {
    if width == 0 || height == 0 {
        Frame::Skip
    } else {
        match state {
            SurfaceState::Ready => Frame::Draw,
            SurfaceState::Stale => Frame::Reconfigure,
            SurfaceState::Unavailable => Frame::Skip,
        }
    }
}

/// Decides about a frame. A window without pixels draws nothing; a hidden one
/// is drawn when it shows again.
pub fn frame(width: u32, height: u32, state: SurfaceState) -> (r: Frame)
    ensures
        r == frame_for(width, height, state),
{
    if width == 0 || height == 0 {
        return Frame::Skip;
    }
    match state {
        SurfaceState::Ready => Frame::Draw,
        SurfaceState::Stale => Frame::Reconfigure,
        SurfaceState::Unavailable => Frame::Skip,
    }
}

/// A host can be made exactly on the main thread, while none runs, for a window
/// whose sides are above zero and below infinity; a side that is left out is
/// 800 wide or 600 high. Of several faults the first of these is told.
pub proof fn law_hosts_are_checked(on_main: bool, running: bool, o: HostOptions)
    ensures
        ({
            let fits = |x: Option<Scalar>|
                match x {
                    Some(v) => Scalar(0).below(v) && v.below(Scalar(0x7F80_0000)),
                    None => true,
                };
            &&& host_error(on_main, running, o) is None <==> on_main && !running && fits(o.width)
                && fits(o.height)
            &&& !on_main ==> host_error(on_main, running, o) == Some(
                "NativeHost requires the main thread"@,
            )
            &&& on_main && running ==> host_error(on_main, running, o) == Some(
                "A native host is already active"@,
            )
            &&& on_main && !running && !(fits(o.width) && fits(o.height)) ==> host_error(
                on_main,
                running,
                o,
            ) == Some("Window dimensions must be finite and positive"@)
        }),
        forall|w: Scalar, bits: u32| or_default(Some(w), bits) == w,
        or_default(None, DEFAULT_WIDTH) == Scalar(0x4448_0000),
        or_default(None, DEFAULT_HEIGHT) == Scalar(0x4416_0000),
{
}

/// A client attaches exactly off the main thread, to a session that is there
/// and has not ended; of several faults the first of these is told.
pub proof fn law_clients_are_checked(on_main: bool, found: bool, closed: bool)
    ensures
        client_error(on_main, found, closed) is None <==> !on_main && found && !closed,
        on_main ==> client_error(on_main, found, closed) == Some(
            "NativeClient must run on the application worker"@,
        ),
        !on_main && !found ==> client_error(on_main, found, closed) == Some(
            "Unknown native session"@,
        ),
        !on_main && found && closed ==> client_error(on_main, found, closed) == Some(
            "Native session is closed"@,
        ),
{
}

/// A frame is drawn exactly where the window has pixels and the surface a
/// texture; a stale surface is configured anew, and only then.
pub proof fn law_frames_are_drawn_when_ready(width: u32, height: u32, state: SurfaceState)
    ensures
        frame_for(width, height, state) is Draw <==> width > 0 && height > 0 && state is Ready,
        frame_for(width, height, state) is Reconfigure <==> width > 0 && height > 0
            && state is Stale,
{
}

/// A loop that has run out leaves the reason that its session has; one without
/// a reason ends because the window was closed.
pub proof fn law_sessions_end_with_a_reason(closed: Option<Seq<char>>)
    ensures
        closed is Some ==> end_reason(closed) == closed.unwrap(),
        closed is None ==> end_reason(closed) == "Native window closed"@,
{
}

/// A window has the title that it was given, or the library's name.
pub proof fn law_windows_have_a_title(title: Option<String>)
    ensures
        title is Some ==> title_of(title) == title.unwrap()@,
        title is None ==> title_of(title) == "Craie"@,
{
}

/// The version of the runtime interface.
pub proof fn law_runtime_version()
    ensures
        RUNTIME_VERSION == 1,
{
}

} // verus!
