//! What a screenshot is taken of and what becomes of it.

use vstd::prelude::*;

use crate::hypr;
use crate::hypr::Client;
use crate::hypr::Monitor;
use crate::rect::CaptureTarget;
use crate::rect::Rect;
use crate::rect::Region;

verus! {

/// A source as it is handed to the desktop portal.
#[derive(Debug, Clone, PartialEq, Eq)]
pub enum Selection {
    Window {
        id: u64,
    },
    Screen {
        name: String,
    },
    Region {
        output: String,
        x: i32,
        y: i32,
        w: i32,
        h: i32,
    },
}

/// What becomes of a screenshot.
#[derive(Debug, Clone, Copy, PartialEq, Eq, Structural)]
pub enum CaptureAction {
    Copy,
    Save,
    Share,
}

/// What a screenshot is taken of.
#[derive(Debug, Clone, PartialEq, Eq)]
pub enum CaptureRequest {
    Window(hypr::Rect),
    Toplevel(String),
    Output(String),
    Region(Selection),
}

#[derive(Debug, Clone, Copy, PartialEq, Eq, Structural)]
pub enum Error {
    EmptyRegion,
    NotARegion,
    NotSeparate,
    TooLarge,
    NoHome,
}

impl Error {
    pub open spec fn text(self) -> Seq<char> {
        match self {
            Error::EmptyRegion => "screen capture requires a nonempty region"@,
            Error::NotARegion => "screen capture expected a region selection"@,
            Error::NotSeparate =>
                "This window cannot be captured separately. Choose Area to explicitly share its visible screen region."@,
            Error::TooLarge => "out of range integral type conversion attempted"@,
            Error::NoHome => "HOME is not set"@,
        }
    }

    pub fn message(self) -> (r: String)
        ensures
            r@ == self.text(),
    {
        let message = match self {
            Error::EmptyRegion => "screen capture requires a nonempty region",
            Error::NotARegion => "screen capture expected a region selection",
            Error::NotSeparate =>
                "This window cannot be captured separately. Choose Area to explicitly share its visible screen region.",
            Error::TooLarge => "out of range integral type conversion attempted",
            Error::NoHome => "HOME is not set",
        };
        message.to_owned()
    }
}

/// The rectangle has the given corner and size.
pub open spec fn is_rect(r: Rect, x: i32, y: i32, w: i32, h: i32) -> bool {
    r.x == x && r.y == y && r.width == w && r.height == h
}

impl CaptureRequest {
    /// Why nothing can be captured.
    pub open spec fn refused(self) -> Option<Error> {
        match self {
            CaptureRequest::Window(r) => if r.w <= 0 || r.h <= 0 {
                Some(Error::EmptyRegion)
            } else {
                None
            },
            CaptureRequest::Toplevel(_) => None,
            CaptureRequest::Output(_) => None,
            CaptureRequest::Region(selection) => match selection {
                Selection::Region { output, x, y, w, h } => if w <= 0 || h <= 0 {
                    Some(Error::EmptyRegion)
                } else {
                    None
                },
                _ => Some(Error::NotARegion),
            },
        }
    }

    /// The target is the one that is asked for. A region stays relative to its
    /// output; a window's rectangle is one of the layout.
    pub open spec fn aims_at(self, target: CaptureTarget) -> bool {
        match self {
            CaptureRequest::Window(r) => target is DesktopRect && is_rect(
                target->DesktopRect_0,
                r.x,
                r.y,
                r.w,
                r.h,
            ),
            CaptureRequest::Toplevel(id) => target is Toplevel && target->Toplevel_0@ == id@,
            CaptureRequest::Output(name) => target is Output && target->Output_0@ == name@,
            CaptureRequest::Region(selection) => match selection {
                Selection::Region { output, x, y, w, h } => target is Region
                    && target->Region_0.output@ == output@ && is_rect(
                    target->Region_0.rect,
                    x,
                    y,
                    w,
                    h,
                ),
                _ => false,
            },
        }
    }

    pub fn target(&self) -> (r: Result<CaptureTarget, Error>)
        ensures
            match r {
                Ok(target) => self.refused() is None && self.aims_at(target),
                Err(error) => self.refused() == Some(error),
            },
    {
        match self {
            CaptureRequest::Window(r) => match rect(r.x, r.y, r.w, r.h) {
                Ok(r) => Ok(CaptureTarget::DesktopRect(r)),
                Err(error) => Err(error),
            },
            CaptureRequest::Toplevel(id) => Ok(CaptureTarget::Toplevel(id.clone())),
            CaptureRequest::Output(name) => Ok(CaptureTarget::Output(name.clone())),
            CaptureRequest::Region(selection) => match selection {
                Selection::Region { output, x, y, w, h } => match rect(*x, *y, *w, *h) {
                    Ok(r) => Ok(CaptureTarget::Region(Region { output: output.clone(), rect: r })),
                    Err(error) => Err(error),
                },
                _ => Err(Error::NotARegion),
            },
        }
    }
}

fn rect(x: i32, y: i32, w: i32, h: i32) -> (r: Result<Rect, Error>)
    ensures
        match r {
            Ok(r) => w > 0 && h > 0 && is_rect(r, x, y, w, h),
            Err(error) => (w <= 0 || h <= 0) && error == Error::EmptyRegion,
        },
{
    if w <= 0 || h <= 0 {
        return Err(Error::EmptyRegion);
    }
    Ok(Rect { x, y, width: w as u32, height: h as u32 })
}

/// The dragged region as a selection.
pub fn pick_region(region: Region) -> (r: Result<Selection, Error>)
    ensures
        match r {
            Ok(selection) => {
                &&& selection is Region
                &&& selection->Region_output == region.output
                &&& is_rect(
                    region.rect,
                    selection->Region_x,
                    selection->Region_y,
                    selection->Region_w,
                    selection->Region_h,
                )
            },
            Err(error) => (region.rect.width > i32::MAX || region.rect.height > i32::MAX) && error
                == Error::TooLarge,
        },
{
    if region.rect.width > 0x7fff_ffff || region.rect.height > 0x7fff_ffff {
        return Err(Error::TooLarge);
    }
    Ok(
        Selection::Region {
            output: region.output,
            x: region.rect.x,
            y: region.rect.y,
            w: region.rect.width as i32,
            h: region.rect.height as i32,
        },
    )
}

/// A picked region that is not empty is captured where it was picked.
pub proof fn picked_regions_are_captured_in_place(region: Region, selection: Selection)
    requires
        selection is Region,
        selection->Region_output == region.output,
        is_rect(
            region.rect,
            selection->Region_x,
            selection->Region_y,
            selection->Region_w,
            selection->Region_h,
        ),
        region.rect.width > 0,
        region.rect.height > 0,
    ensures
        CaptureRequest::Region(selection).refused() is None,
        CaptureRequest::Region(selection).aims_at(CaptureTarget::Region(region)),
{
}

/// How a screenshot is taken: its target, and whether it is copied, or saved
/// and then perhaps shared.
#[derive(Debug)]
pub struct Plan {
    pub target: CaptureTarget,
    pub copy: bool,
    pub save: bool,
    pub share: bool,
}

/// What to do for a screenshot.
pub fn capture(request: &CaptureRequest, action: CaptureAction) -> (r: Result<Plan, Error>)
    ensures
        match r {
            Ok(plan) => {
                &&& request.refused() is None
                &&& request.aims_at(plan.target)
                &&& plan.copy == (action == CaptureAction::Copy)
                &&& plan.save == (action != CaptureAction::Copy)
                &&& plan.share == (action == CaptureAction::Share)
                &&& plan.copy != plan.save
                &&& plan.share ==> plan.save
            },
            Err(error) => request.refused() == Some(error),
        },
{
    match request.target() {
        Ok(target) => Ok(
            Plan {
                target,
                copy: action == CaptureAction::Copy,
                save: action != CaptureAction::Copy,
                share: action == CaptureAction::Share,
            },
        ),
        Err(error) => Err(error),
    }
}

/// A window is captured by the name that follows it around.
pub fn request_for_client(client: &Client) -> (r: Result<CaptureRequest, Error>)
    ensures
        match r {
            Ok(request) => client.stable_id@.len() > 0 && request is Toplevel
                && request->Toplevel_0@ == client.stable_id@,
            Err(error) => client.stable_id@.len() == 0 && error == Error::NotSeparate,
        },
{
    if client.stable_id.as_str().is_empty() {
        return Err(Error::NotSeparate);
    }
    Ok(CaptureRequest::Toplevel(client.stable_id.clone()))
}

pub fn request_for_monitor(monitor: &Monitor) -> (r: CaptureRequest)
    ensures
        r is Output,
        r->Output_0@ == monitor.name@,
{
    CaptureRequest::Output(monitor.name.clone())
}

/// A name inside a directory.
pub open spec fn inside(dir: Seq<char>, name: Seq<char>) -> Seq<char> {
    if dir.len() == 0 {
        name
    } else if dir.last() == '/' {
        dir + name
    } else {
        dir + "/"@ + name
    }
}

fn join(dir: &str, name: &str) -> (r: String)
    requires
        name@.len() > 0,
    ensures
        r@ == inside(dir@, name@),
{
    let chars = crate::text::chars(dir);
    let mut path = dir.to_owned();
    if chars.len() > 0 && chars[chars.len() - 1] != '/' {
        path.append("/");
    }
    path.append(name);
    assert(dir@.len() == 0 ==> path@ =~= name@);
    path
}

/// The pictures' directory: the one for screenshots, else the one for
/// pictures, else a subdirectory of the home.
pub open spec fn pictures(
    screenshots: Option<String>,
    pictures: Option<String>,
    home: Option<String>,
) -> Option<Seq<char>> {
    match screenshots {
        Some(dir) => Some(dir@),
        None => match pictures {
            Some(dir) => Some(dir@),
            None => match home {
                Some(dir) => Some(inside(dir@, "Pictures"@)),
                None => None,
            },
        },
    }
}

pub fn pictures_dir(
    screenshots: Option<String>,
    pictures: Option<String>,
    home: Option<String>,
) -> (r: Result<String, Error>)
    ensures
        match r {
            Ok(dir) => self::pictures(screenshots, pictures, home) == Some(dir@),
            Err(error) => self::pictures(screenshots, pictures, home) is None && error
                == Error::NoHome,
        },
{
    if let Some(dir) = screenshots {
        return Ok(dir);
    }
    if let Some(dir) = pictures {
        return Ok(dir);
    }
    match home {
        Some(dir) => {
            proof {
                reveal_strlit("Pictures");
            }
            Ok(join(dir.as_str(), "Pictures"))
        },
        None => Err(Error::NoHome),
    }
}

/// Where a screenshot taken at a time is saved.
pub fn screenshot_path(pictures: &str, stamp: &str) -> (r: String)
    ensures
        r@ == inside(
            inside(pictures@, "omabeam"@),
            "omabeam-"@ + stamp@ + ".png"@,
        ),
{
    proof {
        reveal_strlit("omabeam");
        reveal_strlit("omabeam-");
    }
    let dir = join(pictures, "omabeam");
    let mut name = "omabeam-".to_owned();
    name.append(stamp);
    name.append(".png");
    join(dir.as_str(), name.as_str())
}

} // verus!
