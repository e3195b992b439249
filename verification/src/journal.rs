//! The FPS journal's rules: once a second, one row of where the player is and what the frame cost
//! on the wall, on the CPU and on the GPU. This module holds the journal's decisions — which
//! render-diagnostics span lands in which GPU column, the `#` line a fresh file opens with, when the
//! journal opens and closes, and the "unmeasured, not free" rule for per-frame averages.
//!
//! **Where nothing was measured, a cell stays empty rather than zero**, so "no reading" cannot be
//! mistaken for "free".
use vstd::prelude::*;
use vstd::string::StringExecFns;
use crate::text::{chars_of, chars_eq, trim_seq, trim_chars, string_of};

verus! {

// ── GPU columns ──────────────────────────────────────────────────────────────────────────────────

/// The GPU columns after `gpu_ms`, in header order.
#[derive(Clone, Copy, PartialEq, Eq, Debug, Structural)]
pub enum GpuBucket {
    /// `main_opaque_pass_3d` — terrain, the model lane's opaque parts, the sky shells.
    Opaque,
    /// The retained static pass (`static_gx`): the WMOs and the doodads, a city's own draw.
    Static,
    /// The transparent (and transmissive) 3D passes — water, glow cards, particles.
    Transparent,
    /// The `ffx_glow` chain.
    Glow,
    /// The full-screen tail on every camera: tonemapping, upscaling, the MSAA writeback.
    Post,
    /// The 2D camera's passes, the UI, and `ui_gamma_decode`.
    Ui,
    /// Every span not named above — counted, never dropped.
    Other,
}

/// How many GPU bucket columns a row carries.
pub const GPU_BUCKETS: usize = 7;

impl GpuBucket {
    /// The bucket's column among the [`GPU_BUCKETS`], in header order.
    pub open spec fn spec_index(self) -> nat {
        match self {
            GpuBucket::Opaque => 0,
            GpuBucket::Static => 1,
            GpuBucket::Transparent => 2,
            GpuBucket::Glow => 3,
            GpuBucket::Post => 4,
            GpuBucket::Ui => 5,
            GpuBucket::Other => 6,
        }
    }

    /// The bucket's column among the [`GPU_BUCKETS`], in header order.
    pub fn index(self) -> (i: usize)
        ensures
            i == self.spec_index(),
            i < GPU_BUCKETS,
    {
        match self {
            GpuBucket::Opaque => 0,
            GpuBucket::Static => 1,
            GpuBucket::Transparent => 2,
            GpuBucket::Glow => 3,
            GpuBucket::Post => 4,
            GpuBucket::Ui => 5,
            GpuBucket::Other => 6,
        }
    }
}

/// The pass name inside a diagnostics path `render/<pass><suffix>`, if the path has that shape.
pub open spec fn pass_of(path: Seq<char>, suffix: Seq<char>) -> Option<Seq<char>> {
    let head = "render/"@;
    if path.len() >= head.len() + suffix.len() && path.take(head.len() as int) == head && path.skip(
        path.len() - suffix.len(),
    ) == suffix {
        Some(path.subrange(head.len() as int, path.len() - suffix.len()))
    } else {
        None
    }
}

/// The column a pass lands in.
pub open spec fn bucket_of_pass(pass: Seq<char>) -> GpuBucket {
    if pass == "main_opaque_pass_3d"@ {
        GpuBucket::Opaque
    } else if pass == "static_gx"@ {
        GpuBucket::Static
    } else if pass == "main_transparent_pass_3d"@ || pass == "main_transmissive_pass_3d"@ {
        GpuBucket::Transparent
    } else if pass.len() >= "ffx_glow"@.len() && pass.take("ffx_glow"@.len() as int)
        == "ffx_glow"@ {
        GpuBucket::Glow
    } else if pass == "tonemapping"@ || pass == "upscaling"@ || pass == "msaa_writeback"@ || pass
        == "postprocessing"@ {
        GpuBucket::Post
    } else if pass == "main_opaque_pass_2d"@ || pass == "main_transparent_pass_2d"@ || pass
        == "ui"@ || pass == "ui_gamma_decode"@ {
        GpuBucket::Ui
    } else {
        GpuBucket::Other
    }
}

/// Which column a diagnostics path with the given measurement suffix lands in: none for a path of
/// another shape — another suffix, a non-render diagnostic — or for a span nested under another
/// (its parent already carries it).
pub open spec fn bucket_spec(path: Seq<char>, suffix: Seq<char>) -> Option<GpuBucket> {
    match pass_of(path, suffix) {
        None => None,
        Some(pass) => if pass.contains('/') {
            None
        } else {
            Some(bucket_of_pass(pass))
        },
    }
}

/// Whether `pat` occurs in `s` at `at`.
fn occurs_at(s: &[char], at: usize, pat: &[char]) -> (r: bool)
    ensures
        r == (at + pat@.len() <= s@.len() && s@.subrange(at as int, at + pat@.len()) == pat@),
{
    if at > s.len() || pat.len() > s.len() - at {
        return false;
    }
    let m = pat.len();
    for k in 0..m
        invariant
            m == pat@.len(),
            at + m <= s@.len(),
            s@.len() == s.len(),
            forall|j: int| 0 <= j < k ==> s@[at + j] == pat@[j],
    {
        if s[at + k] != pat[k] {
            assert(s@.subrange(at as int, at + m)[k as int] != pat@[k as int]);
            return false;
        }
    }
    assert(s@.subrange(at as int, at + m) =~= pat@);
    true
}

/// Whether `s` is exactly the text of `lit`.
fn is_lit(s: &[char], lit: &str) -> (r: bool)
    ensures
        r == (s@ == lit@),
{
    let l = chars_of(lit);
    chars_eq(s, l.as_slice())
}

fn pass_bucket(pass: &[char]) -> (b: GpuBucket)
    ensures
        b == bucket_of_pass(pass@),
{
    if is_lit(pass, "main_opaque_pass_3d") {
        GpuBucket::Opaque
    } else if is_lit(pass, "static_gx") {
        GpuBucket::Static
    } else if is_lit(pass, "main_transparent_pass_3d") || is_lit(pass, "main_transmissive_pass_3d") {
        GpuBucket::Transparent
    } else if occurs_at(pass, 0, chars_of("ffx_glow").as_slice()) {
        assert(pass@.subrange(0, "ffx_glow"@.len() as int) =~= pass@.take("ffx_glow"@.len() as int));
        GpuBucket::Glow
    } else if is_lit(pass, "tonemapping") || is_lit(pass, "upscaling") || is_lit(
        pass,
        "msaa_writeback",
    ) || is_lit(pass, "postprocessing") {
        proof {
            assert(!(pass@.len() >= "ffx_glow"@.len() && pass@.take("ffx_glow"@.len() as int)
                == "ffx_glow"@)) by {
                if pass@.len() >= "ffx_glow"@.len() {
                    assert(pass@.subrange(0, "ffx_glow"@.len() as int) =~= pass@.take(
                        "ffx_glow"@.len() as int,
                    ));
                }
            }
        }
        GpuBucket::Post
    } else if is_lit(pass, "main_opaque_pass_2d") || is_lit(pass, "main_transparent_pass_2d")
        || is_lit(pass, "ui") || is_lit(pass, "ui_gamma_decode") {
        proof {
            assert(!(pass@.len() >= "ffx_glow"@.len() && pass@.take("ffx_glow"@.len() as int)
                == "ffx_glow"@)) by {
                if pass@.len() >= "ffx_glow"@.len() {
                    assert(pass@.subrange(0, "ffx_glow"@.len() as int) =~= pass@.take(
                        "ffx_glow"@.len() as int,
                    ));
                }
            }
        }
        GpuBucket::Ui
    } else {
        proof {
            assert(!(pass@.len() >= "ffx_glow"@.len() && pass@.take("ffx_glow"@.len() as int)
                == "ffx_glow"@)) by {
                if pass@.len() >= "ffx_glow"@.len() {
                    assert(pass@.subrange(0, "ffx_glow"@.len() as int) =~= pass@.take(
                        "ffx_glow"@.len() as int,
                    ));
                }
            }
        }
        GpuBucket::Other
    }
}

/// Which column the diagnostics path `path` lands in, for spans measured under `suffix`.
pub fn bucket_of(path: &str, suffix: &str) -> (b: Option<GpuBucket>)
    ensures
        b == bucket_spec(path@, suffix@),
{
    let cs = chars_of(path);
    let head = chars_of("render/");
    let suf = chars_of(suffix);
    if cs.len() < head.len() || cs.len() - head.len() < suf.len() {
        return None;
    }
    let tail_at = cs.len() - suf.len();
    if !occurs_at(cs.as_slice(), 0, head.as_slice()) || !occurs_at(cs.as_slice(), tail_at, suf.as_slice()) {
        proof {
            assert(cs@.subrange(0, head@.len() as int) =~= path@.take(head@.len() as int));
            assert(cs@.subrange(tail_at as int, tail_at + suf@.len()) =~= path@.skip(
                path@.len() - suffix@.len(),
            ));
        }
        return None;
    }
    assert(cs@.subrange(0, head@.len() as int) =~= path@.take(head@.len() as int));
    assert(cs@.subrange(tail_at as int, tail_at + suf@.len()) =~= path@.skip(
        path@.len() - suffix@.len(),
    ));
    let mut pass: Vec<char> = Vec::new();
    let mut i = head.len();
    while i < tail_at
        invariant
            head@.len() <= i <= tail_at <= cs@.len(),
            pass@ == cs@.subrange(head@.len() as int, i as int),
        decreases tail_at - i,
    {
        pass.push(cs[i]);
        assert(cs@.subrange(head@.len() as int, i + 1) =~= cs@.subrange(head@.len() as int, i as int).push(
            cs@[i as int],
        ));
        i = i + 1;
    }
    let ghost p = pass@;
    assert(pass_of(path@, suffix@) == Some(p));
    let m = pass.len();
    for k in 0..m
        invariant
            m == pass@.len(),
            p == pass@,
            pass_of(path@, suffix@) == Some(p),
            forall|j: int| 0 <= j < k ==> pass@[j] != '/',
    {
        if pass[k] == '/' {
            assert(pass@.contains('/'));
            return None;
        }
    }
    Some(pass_bucket(pass.as_slice()))
}

/// The column a render pass's **GPU** span lands in (`render/<pass>/elapsed_gpu`); none for any
/// other diagnostic.
pub fn gpu_bucket(path: &str) -> (b: Option<GpuBucket>)
    ensures
        b == bucket_spec(path@, "/elapsed_gpu"@),
{
    bucket_of(path, "/elapsed_gpu")
}

/// The same classification for the **CPU** side of a render-graph span
/// (`render/<pass>/elapsed_cpu`), which the render graph records with no timestamp feature at all.
pub fn cpu_bucket(path: &str) -> (b: Option<GpuBucket>)
    ensures
        b == bucket_spec(path@, "/elapsed_cpu"@),
{
    bucket_of(path, "/elapsed_cpu")
}

// ── The `#` line ─────────────────────────────────────────────────────────────────────────────────

/// What the journal reports of the graphics adapter.
pub struct AdapterFacts {
    pub name: String,
    /// The backend's name as its debug rendering spells it.
    pub backend: String,
    pub driver: String,
    pub driver_info: String,
}

/// The three timestamp features of the render device, each its own fact.
pub struct DeviceFeatures {
    pub timestamp_query: bool,
    pub inside_encoders: bool,
    pub inside_passes: bool,
}

/// `yes` or `no`.
pub open spec fn yes_no(b: bool) -> Seq<char> {
    if b {
        "yes"@
    } else {
        "no"@
    }
}

/// The driver as the `#` line names it: driver and driver info, space-joined and trimmed, or `?`
/// when that is empty (some platforms report no driver string at all).
pub open spec fn driver_text(a: AdapterFacts) -> Seq<char> {
    let d = trim_seq(a.driver@ + " "@ + a.driver_info@);
    if d.len() == 0 {
        "?"@
    } else {
        d
    }
}

/// The `#` line a fresh journal opens with: what the rows were read on — adapter, backend,
/// driver, each `?` when unknown — and the three timestamp features reported one by one, because an
/// AND over them is not a fact about any of them.
pub open spec fn preamble_text(adapter: Option<AdapterFacts>, device: Option<DeviceFeatures>) -> Seq<
    char,
> {
    let (gpu, backend, driver) = match adapter {
        Some(a) => (a.name@, a.backend@, driver_text(a)),
        None => ("?"@, "?"@, "?"@),
    };
    let (ts, enc, inside) = match device {
        Some(d) => (yes_no(d.timestamp_query), yes_no(d.inside_encoders), yes_no(d.inside_passes)),
        None => ("?"@, "?"@, "?"@),
    };
    "# benilla fps journal"@ + " | gpu "@ + gpu + " | backend "@ + backend + " | driver "@ + driver
        + " | "@ + "gpu_ts "@ + ts + " | gpu_inside_encoders "@ + enc + " | gpu_inside_passes "@
        + inside + "\n"@
}

fn yes_no_str(b: bool) -> (s: &'static str)
    ensures
        s@ == yes_no(b),
{
    if b {
        "yes"
    } else {
        "no"
    }
}

/// The `#` line a fresh journal file opens with.
pub fn preamble(adapter: Option<&AdapterFacts>, device: Option<&DeviceFeatures>) -> (s: String)
    ensures
        s@ == preamble_text(
            match adapter {
                Some(a) => Some(*a),
                None => None,
            },
            match device {
                Some(d) => Some(*d),
                None => None,
            },
        ),
{
    let mut out = String::from_str("# benilla fps journal");
    out.append(" | gpu ");
    match adapter {
        Some(a) => {
            out.append(a.name.as_str());
            out.append(" | backend ");
            out.append(a.backend.as_str());
            out.append(" | driver ");
            let mut joined = String::from_str(a.driver.as_str());
            joined.append(" ");
            joined.append(a.driver_info.as_str());
            let d = trim_chars(chars_of(joined.as_str()).as_slice());
            if d.len() == 0 {
                out.append("?");
            } else {
                let ds = string_of(d.as_slice());
                out.append(ds.as_str());
            }
        },
        None => {
            out.append("?");
            out.append(" | backend ");
            out.append("?");
            out.append(" | driver ");
            out.append("?");
        },
    }
    out.append(" | ");
    out.append("gpu_ts ");
    match device {
        Some(d) => {
            out.append(yes_no_str(d.timestamp_query));
            out.append(" | gpu_inside_encoders ");
            out.append(yes_no_str(d.inside_encoders));
            out.append(" | gpu_inside_passes ");
            out.append(yes_no_str(d.inside_passes));
        },
        None => {
            out.append("?");
            out.append(" | gpu_inside_encoders ");
            out.append("?");
            out.append(" | gpu_inside_passes ");
            out.append("?");
        },
    }
    out.append("\n");
    out
}

// ── When to write ────────────────────────────────────────────────────────────────────────────────

/// What the journal does with a frame, given whether it is wanted and whether a file is open.
#[derive(Clone, Copy, PartialEq, Eq, Debug, Structural)]
pub enum JournalSwitch {
    /// Off, and nothing open: nothing to do.
    Idle,
    /// Turned off: close the file and drop the half-second in hand.
    Close,
    /// Turned on: open (or create) the file and restart every per-second baseline.
    Open,
    /// On and open: measure this frame.
    Continue,
}

/// The journal's switch, read every frame: wanted when the environment names a path (on for the
/// whole run, whatever the setting says) or the setting is on.
pub fn journal_switch(env_path_set: bool, setting_on: bool, open: bool) -> (s: JournalSwitch)
    ensures
        s == (if env_path_set || setting_on {
            if open {
                JournalSwitch::Continue
            } else {
                JournalSwitch::Open
            }
        } else if open {
            JournalSwitch::Close
        } else {
            JournalSwitch::Idle
        }),
{
    let wanted = env_path_set || setting_on;
    if wanted {
        if open {
            JournalSwitch::Continue
        } else {
            JournalSwitch::Open
        }
    } else if open {
        JournalSwitch::Close
    } else {
        JournalSwitch::Idle
    }
}

/// A per-frame average over one second: `total / frames`, or nothing when no frame reported — an
/// empty cell then, because a zero would claim the work was free rather than unmeasured.
pub fn per_frame(total: u64, frames: u64) -> (r: Option<u64>)
    ensures
        frames == 0 ==> r is None,
        frames > 0 ==> r == Some((total / frames) as u64),
{
    if frames > 0 {
        Some(total / frames)
    } else {
        None
    }
}

} // verus!
