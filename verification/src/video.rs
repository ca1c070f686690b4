//! Hardware H.264 encoders: which to try, in what order and how.

use vstd::prelude::*;

use crate::text;

verus! {

/// A hardware encoder to try.
#[derive(Debug, Clone)]
pub enum Candidate {
    Nvenc,
    /// VA-API on a render node.
    Vaapi(String),
    VideoToolbox,
}

/// A pixel format of CPU frames.
#[derive(Debug, Clone, Copy, PartialEq, Eq, Structural)]
pub enum PixelFormat {
    /// Three planes: luma and both chroma components.
    Yuv420p,
    /// Two planes: luma and interleaved chroma.
    Nv12,
}

/// The most render nodes that are tried.
pub const MAX_DEVICES: usize = 8;

impl Candidate {
    pub fn label(&self) -> (r: String)
        ensures
            r@ == match *self {
                Candidate::Nvenc => "NVIDIA NVENC"@,
                Candidate::Vaapi(device) => "VA-API ("@ + device@ + ")"@,
                Candidate::VideoToolbox => "Apple VideoToolbox"@,
            },
    {
        match self {
            Candidate::Nvenc => "NVIDIA NVENC".to_owned(),
            Candidate::Vaapi(device) => {
                let mut label = "VA-API (".to_owned();
                label.append(device.as_str());
                label.append(")");
                label
            },
            Candidate::VideoToolbox => "Apple VideoToolbox".to_owned(),
        }
    }

    /// The name of the codec.
    pub fn codec(&self) -> (r: &'static str)
        ensures
            r@ == match *self {
                Candidate::Nvenc => "h264_nvenc"@,
                Candidate::Vaapi(_) => "h264_vaapi"@,
                Candidate::VideoToolbox => "h264_videotoolbox"@,
            },
    {
        match self {
            Candidate::Nvenc => "h264_nvenc",
            Candidate::Vaapi(_) => "h264_vaapi",
            Candidate::VideoToolbox => "h264_videotoolbox",
        }
    }

    /// CPU frame formats to try, best first. NVENC takes planar frames, with no
    /// interleave, and falls back to NV12. VideoToolbox delays planar frames,
    /// and VA-API uploads NV12.
    pub open spec fn tried(self) -> Seq<PixelFormat> {
        if self is Nvenc {
            seq![PixelFormat::Yuv420p, PixelFormat::Nv12]
        } else {
            seq![PixelFormat::Nv12]
        }
    }

    pub fn formats(&self) -> (r: Vec<PixelFormat>)
        ensures
            r@ == self.tried(),
    {
        let formats = match self {
            Candidate::Nvenc => vec![PixelFormat::Yuv420p, PixelFormat::Nv12],
            Candidate::Vaapi(_) | Candidate::VideoToolbox => vec![PixelFormat::Nv12],
        };
        assert(formats@ =~= self.tried());
        formats
    }
}

/// The peak rate allowed to NVENC: twice the target.
pub fn nvenc_maxrate(bitrate: u32) -> (r: u32)
    ensures
        r == if 2 * bitrate <= u32::MAX {
            2 * bitrate
        } else {
            u32::MAX as int
        },
{
    if bitrate <= 0x7fff_ffff {
        2 * bitrate
    } else {
        0xffff_ffff
    }
}

/// The codec options of a candidate, by name.
pub open spec fn codec_options(candidate: Candidate, maxrate: nat) -> Seq<(Seq<char>, Seq<char>)> {
    match candidate {
        Candidate::Nvenc => seq![
            ("profile"@, "baseline"@),
            ("preset"@, "p1"@),
            ("tune"@, "ull"@),
            ("rc"@, "vbr"@),
            ("maxrate"@, text::decimal(maxrate)),
            ("rc-lookahead"@, "0"@),
            ("zerolatency"@, "1"@),
            ("delay"@, "0"@),
            ("forced-idr"@, "1"@),
            ("no-scenecut"@, "1"@),
            ("gpu"@, "-1"@),
        ],
        Candidate::VideoToolbox => seq![
            ("profile"@, "constrained_baseline"@),
            ("realtime"@, "1"@),
            ("allow_sw"@, "0"@),
        ],
        Candidate::Vaapi(_) => seq![
            ("profile"@, "constrained_baseline"@),
            ("async_depth"@, "1"@),
            ("idr_interval"@, "0"@),
        ],
    }
}

/// The options as text pairs.
pub open spec fn pairs(options: Seq<(&'static str, String)>) -> Seq<(Seq<char>, Seq<char>)> {
    options.map_values(|o: (&'static str, String)| (o.0@, o.1@))
}

/// The codec options to open a candidate with.
pub fn options(candidate: &Candidate, bitrate: u32) -> (r: Vec<(&'static str, String)>)
    ensures
        pairs(r@) == codec_options(
            *candidate,
            if 2 * bitrate <= u32::MAX {
                (2 * bitrate) as nat
            } else {
                u32::MAX as nat
            },
        ),
{
    let mut found: Vec<(&'static str, String)> = Vec::new();
    match candidate {
        Candidate::Nvenc => {
            let mut maxrate = String::new();
            text::push_decimal(&mut maxrate, nvenc_maxrate(bitrate) as u64);
            found.push(("profile", "baseline".to_owned()));
            found.push(("preset", "p1".to_owned()));
            found.push(("tune", "ull".to_owned()));
            found.push(("rc", "vbr".to_owned()));
            found.push(("maxrate", maxrate));
            found.push(("rc-lookahead", "0".to_owned()));
            found.push(("zerolatency", "1".to_owned()));
            found.push(("delay", "0".to_owned()));
            found.push(("forced-idr", "1".to_owned()));
            found.push(("no-scenecut", "1".to_owned()));
            found.push(("gpu", "-1".to_owned()));
        },
        Candidate::VideoToolbox => {
            found.push(("profile", "constrained_baseline".to_owned()));
            found.push(("realtime", "1".to_owned()));
            found.push(("allow_sw", "0".to_owned()));
        },
        Candidate::Vaapi(_) => {
            found.push(("profile", "constrained_baseline".to_owned()));
            found.push(("async_depth", "1".to_owned()));
            found.push(("idr_interval", "0".to_owned()));
        },
    }
    assert(pairs(found@) =~= codec_options(
        *candidate,
        if 2 * bitrate <= u32::MAX {
            (2 * bitrate) as nat
        } else {
            u32::MAX as nat
        },
    ));
    found
}

/// The prefix of a render node's name.
pub open spec fn node_prefix() -> Seq<char> {
    seq!['r', 'e', 'n', 'd', 'e', 'r', 'D']
}

/// A render node: the prefix, then digits alone.
pub open spec fn is_render_node(name: Seq<char>) -> bool {
    &&& name.len() > 7
    &&& name.take(7) == node_prefix()
    &&& forall|i: int| 7 <= i < name.len() ==> '0' <= #[trigger] name[i] <= '9'
}

fn render_node(name: &str) -> (r: bool)
    ensures
        r == is_render_node(name@),
{
    let chars = text::chars(name);
    if chars.len() <= 7 {
        return false;
    }
    let prefixed = chars[0] == 'r' && chars[1] == 'e' && chars[2] == 'n' && chars[3] == 'd'
        && chars[4] == 'e' && chars[5] == 'r' && chars[6] == 'D';
    if !prefixed {
        assert(!(name@.take(7) =~= node_prefix()));
        return false;
    }
    assert(name@.take(7) =~= node_prefix());
    let mut i: usize = 7;
    while i < chars.len()
        invariant
            chars@ == name@,
            7 <= i <= chars@.len(),
            forall|k: int| 7 <= k < i ==> '0' <= #[trigger] name@[k] <= '9',
        decreases chars@.len() - i,
    {
        if !('0' <= chars[i] && chars[i] <= '9') {
            assert(!('0' <= name@[i as int] <= '9'));
            return false;
        }
        i = i + 1;
    }
    true
}

/// The paths of the render nodes among the entries, in their order.
pub open spec fn node_paths(entries: Seq<String>) -> Seq<Seq<char>>
    decreases entries.len(),
{
    if entries.len() == 0 {
        Seq::empty()
    } else {
        let fewer = node_paths(entries.drop_last());
        if is_render_node(entries.last()@) {
            fewer.push("/dev/dri/"@ + entries.last()@)
        } else {
            fewer
        }
    }
}

/// The views of some strings.
pub open spec fn views(list: Seq<String>) -> Seq<Seq<char>> {
    list.map_values(|s: String| s@)
}

fn devices(entries: &Vec<String>) -> (r: Vec<String>)
    ensures
        views(r@) == node_paths(entries@),
{
    let mut found: Vec<String> = Vec::new();
    let mut i: usize = 0;
    assert(views(found@) =~= node_paths(entries@.take(0)));
    while i < entries.len()
        invariant
            i <= entries@.len(),
            views(found@) == node_paths(entries@.take(i as int)),
        decreases entries@.len() - i,
    {
        let ghost before = found@;
        assert(entries@.take(i + 1).drop_last() =~= entries@.take(i as int));
        if render_node(entries[i].as_str()) {
            let mut path = "/dev/dri/".to_owned();
            path.append(entries[i].as_str());
            found.push(path);
            assert(views(found@) =~= views(before).push(path@));
        }
        i = i + 1;
    }
    assert(entries@.take(i as int) =~= entries@);
    found
}

/// The candidate is VA-API on that node.
pub open spec fn uses_node(candidate: Candidate, node: Seq<char>) -> bool {
    candidate matches Candidate::Vaapi(device) && device@ == node
}

/// The candidates that try some render nodes after NVENC.
pub open spec fn lists(found: Seq<Candidate>, sorted: Seq<String>) -> bool {
    let count = if sorted.len() <= MAX_DEVICES { sorted.len() } else { MAX_DEVICES as nat };
    &&& found.len() == 1 + count
    &&& found[0] is Nvenc
    &&& forall|i: int|
        0 <= i < count ==> uses_node(#[trigger] found[i + 1], sorted[i]@)
}

/// The encoders to try on an operating system whose render nodes are among
/// `entries`. Several nodes are tried, which covers hybrid laptops.
pub fn candidates(os: &str, entries: &Vec<String>) -> (r: Vec<Candidate>)
    ensures
        os@ == "linux"@ ==> exists|sorted: Seq<String>|
            #[trigger] text::in_order(sorted) && lists(r@, sorted) && exists|paths: Seq<String>|
                #[trigger] views(paths) == node_paths(entries@) && paths.to_multiset()
                    == sorted.to_multiset(),
        os@ == "macos"@ && os@ != "linux"@ ==> r@.len() == 1 && r@[0] is VideoToolbox,
        os@ != "linux"@ && os@ != "macos"@ ==> r@.len() == 0,
{
    let mut found: Vec<Candidate> = Vec::new();
    if text::same(os, "linux") {
        let paths = devices(entries);
        let nodes = text::sorted(&paths);
        found.push(Candidate::Nvenc);
        let mut i: usize = 0;
        while i < nodes.len() && i < MAX_DEVICES
            invariant
                i <= nodes@.len(),
                i <= MAX_DEVICES,
                found@.len() == 1 + i,
                found@[0] is Nvenc,
                forall|k: int|
                    0 <= k < i ==> uses_node(#[trigger] found@[k + 1], nodes@[k]@),
            decreases nodes@.len() - i,
        {
            let ghost before = found@;
            found.push(Candidate::Vaapi(nodes[i].clone()));
            assert forall|k: int| 0 <= k < i + 1 implies uses_node(
                #[trigger] found@[k + 1],
                nodes@[k]@,
            ) by {
                if k < i {
                    assert(found@[k + 1] == before[k + 1]);
                }
            }
            i = i + 1;
        }
        assert(views(paths@) == node_paths(entries@));
        assert(text::in_order(nodes@) && lists(found@, nodes@));
    } else if text::same(os, "macos") {
        found.push(Candidate::VideoToolbox);
    }
    found
}

/// What to do after an attempt to open a candidate with a format.
#[derive(Debug, Clone, Copy, PartialEq, Eq, Structural)]
pub enum Attempt {
    /// Try candidate `candidate` with a format.
    Try { candidate: usize, format: PixelFormat },
    /// No candidate works.
    Exhausted,
}

/// The search for a working encoder: the first candidate and format that turns
/// the first frame into a keyframe is used.
#[derive(Debug, Clone, Copy, PartialEq, Eq, Structural)]
pub struct Search {
    pub candidate: usize,
    pub format: usize,
}

impl Search {
    pub fn new() -> (r: Search)
        ensures
            r == (Search { candidate: 0, format: 0 }),
    {
        Search { candidate: 0, format: 0 }
    }

    /// The attempt the search stands at.
    pub fn attempt(&self, list: &Vec<Candidate>) -> (r: Attempt)
        requires
            self.candidate < list@.len() ==> self.format < list@[self.candidate as int].tried().len(),
        ensures
            r == if self.candidate < list@.len() {
                Attempt::Try {
                    candidate: self.candidate,
                    format: list@[self.candidate as int].tried()[self.format as int],
                }
            } else {
                Attempt::Exhausted
            },
    {
        if self.candidate < list.len() {
            let formats = list[self.candidate].formats();
            Attempt::Try { candidate: self.candidate, format: formats[self.format] }
        } else {
            Attempt::Exhausted
        }
    }

    /// An attempt failed: on to the candidate's next format, then to the next
    /// candidate. Tells whether the candidate as a whole has failed.
    pub fn failed(&mut self, list: &Vec<Candidate>) -> (r: bool)
        requires
            old(self).candidate < list@.len(),
            old(self).format < list@[old(self).candidate as int].tried().len(),
        ensures
            ({
                let formats = list@[old(self).candidate as int].tried().len();
                &&& r == (old(self).format + 1 == formats)
                &&& *final(self) == if r {
                    Search { candidate: (old(self).candidate + 1) as usize, format: 0 }
                } else {
                    Search {
                        candidate: old(self).candidate,
                        format: (old(self).format + 1) as usize,
                    }
                }
                &&& final(self).candidate < list@.len() ==> final(self).format < list@[final(self).candidate as int].tried().len()
            }),
    {
        assert(list.len() == list@.len());
        let formats = list[self.candidate].formats();
        if self.format + 1 >= formats.len() {
            self.candidate = self.candidate + 1;
            self.format = 0;
            true
        } else {
            self.format = self.format + 1;
            false
        }
    }
}

} // verus!
