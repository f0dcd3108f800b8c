//! Animation orchestration: one frame descriptor per output frame, with a
//! filename fixed by the frame index alone, the per-frame configuration
//! derived from the base render configuration, and the fixed argument
//! template of the external video encoder. The rendering of the frames may
//! then run in any order: the names, not the completion order, fix the
//! video's frame order.

use crate::text::{data_rows, dec_rep, split_ws, token_rows, u64_to_dec};
use crate::{FractalCfg, FractalError};
use vstd::prelude::*;

verus! {

/// The filename of animation frame `i`.
pub open spec fn spec_frame_filename(i: nat) -> Seq<char> {
    "frame_"@ + dec_rep(i) + ".png"@
}

/// Build the filename of animation frame `i`.
pub fn frame_filename(i: u32) -> (s: String)
    ensures
        s@ == spec_frame_filename(i as nat),
{
    let mut s = "frame_".to_owned();
    let num = u64_to_dec(i as u64);
    s.append(num.as_str());
    s.append(".png");
    proof {
        assert(s@ =~= spec_frame_filename(i as nat));
    }
    s
}

/// One frame of an animation: its index, the configuration its render
/// uses, and the file its image is written to.
pub struct FrameDescriptor {
    pub index: u32,
    pub cfg: FractalCfg,
    pub filename: String,
}

/// The per-frame configuration equals the base configuration with only the
/// Julia constant replaced by the frame's path point.
pub open spec fn frame_cfg_matches(c: FractalCfg, base: FractalCfg, point: (u64, u64)) -> bool {
    &&& c.width == base.width
    &&& c.height == base.height
    &&& c.max_iterations == base.max_iterations
    &&& c.center_r == base.center_r
    &&& c.center_i == base.center_i
    &&& c.zoom == base.zoom
    &&& c.cr == point.0
    &&& c.ci == point.1
    &&& c.multiplier == base.multiplier
    &&& c.julia == base.julia
    &&& c.offset == base.offset
    &&& c.colormap@ == base.colormap@
    &&& c.downsample == base.downsample
}

/// A well-formed descriptor list for a path: one frame per path point, in
/// path order, each named by its own index and configured with its own
/// path point over the shared base configuration.
pub open spec fn spec_frames_of(
    frames: Seq<FrameDescriptor>,
    base: FractalCfg,
    points: Seq<(u64, u64)>,
) -> bool {
    &&& frames.len() == points.len()
    &&& forall|i: int|
        0 <= i < frames.len() ==> {
            let f = #[trigger] frames[i];
            &&& f.index == i
            &&& f.filename@ == spec_frame_filename(i as nat)
            &&& frame_cfg_matches(f.cfg, base, points[i])
        }
}

/// Build one frame descriptor per path point: the frame's configuration is
/// the base configuration with the Julia constant replaced by the point,
/// and its filename is fixed by its index.
pub fn frame_descriptors(cfg: &FractalCfg, points: &Vec<(u64, u64)>) -> (frames: Vec<
    FrameDescriptor,
>)
    requires
        points@.len() <= u32::MAX,
    ensures
        spec_frames_of(frames@, *cfg, points@),
{
    let mut frames: Vec<FrameDescriptor> = Vec::new();
    let mut i: usize = 0;
    while i < points.len()
        invariant
            i <= points@.len(),
            points@.len() <= u32::MAX,
            frames@.len() == i,
            forall|j: int|
                0 <= j < i ==> {
                    let f = #[trigger] frames@[j];
                    &&& f.index == j
                    &&& f.filename@ == spec_frame_filename(j as nat)
                    &&& frame_cfg_matches(f.cfg, *cfg, points@[j])
                },
        decreases points@.len() - i,
    {
        let point = points[i];
        let frame_cfg = FractalCfg {
            width: cfg.width,
            height: cfg.height,
            max_iterations: cfg.max_iterations,
            center_r: cfg.center_r,
            center_i: cfg.center_i,
            zoom: cfg.zoom,
            cr: point.0,
            ci: point.1,
            multiplier: cfg.multiplier,
            julia: cfg.julia,
            offset: cfg.offset,
            colormap: cfg.colormap.clone(),
            downsample: cfg.downsample,
        };
        let filename = frame_filename(i as u32);
        frames.push(FrameDescriptor { index: i as u32, cfg: frame_cfg, filename });
        i = i + 1;
    }
    frames
}

/// Output frame names are fixed by the frame index alone: two descriptor
/// lists of the same length name their frames identically, whatever their
/// base configurations or paths, and whatever order their renders later
/// complete in.
pub proof fn lemma_frame_order_by_index(
    frames1: Seq<FrameDescriptor>,
    base1: FractalCfg,
    points1: Seq<(u64, u64)>,
    frames2: Seq<FrameDescriptor>,
    base2: FractalCfg,
    points2: Seq<(u64, u64)>,
)
    requires
        spec_frames_of(frames1, base1, points1),
        spec_frames_of(frames2, base2, points2),
        frames1.len() == frames2.len(),
    ensures
        forall|i: int|
            0 <= i < frames1.len() ==> #[trigger] frames1[i].filename@ == frames2[i].filename@,
{
}

/// The fixed argument template of the external video encoder: frame rate
/// 60, overwrite allowed, the numbered frame files of the output directory
/// as input, and the output path with the video extension appended.
pub fn ffmpeg_args(output: &str) -> (args: Vec<String>)
    ensures
        args.deep_view() =~= seq![
            "-framerate"@,
            "60"@,
            "-y"@,
            "-i"@,
            output@ + "/frame_%d.png"@,
            output@ + ".mp4"@,
        ],
{
    let mut args: Vec<String> = Vec::new();
    args.push("-framerate".to_owned());
    args.push("60".to_owned());
    args.push("-y".to_owned());
    args.push("-i".to_owned());
    let mut pattern = output.to_owned();
    pattern.append("/frame_%d.png");
    args.push(pattern);
    let mut video = output.to_owned();
    video.append(".mp4");
    args.push(video);
    proof {
        assert(args.deep_view() =~~= seq![
            "-framerate"@,
            "60"@,
            "-y"@,
            "-i"@,
            output@ + "/frame_%d.png"@,
            output@ + ".mp4"@,
        ]);
    }
    args
}

/// Parse the lines of a points file into per-frame Julia constants, kept
/// as their decimal source tokens (their numeric reading is real-valued
/// and happens outside the library). Lines whose first character is `#`
/// are comments; every other line must carry at least two
/// whitespace-separated fields.
pub fn points_from_lines(lines: &Vec<String>) -> (r: Result<Vec<(String, String)>, FractalError>)
    ensures
        (r is Ok) <==> (forall|i: int|
            0 <= i < data_rows(lines.deep_view()).len() ==> split_ws(
                #[trigger] data_rows(lines.deep_view())[i],
            ).len() >= 2),
        r matches Ok(pts) ==> {
            &&& pts@.len() == data_rows(lines.deep_view()).len()
            &&& forall|i: int|
                0 <= i < pts@.len() ==> {
                    let toks = split_ws(data_rows(lines.deep_view())[i]);
                    &&& (#[trigger] pts@[i]).0@ == toks[0]
                    &&& pts@[i].1@ == toks[1]
                }
        },
        r matches Err(e) ==> e == FractalError::Parse,
{
    let rows = match token_rows(lines, 2) {
        Ok(rows) => rows,
        Err(e) => {
            return Err(e);
        },
    };
    let mut pts: Vec<(String, String)> = Vec::new();
    let mut i: usize = 0;
    while i < rows.len()
        invariant
            i <= rows@.len(),
            rows.deep_view().len() == data_rows(lines.deep_view()).len(),
            forall|j: int|
                0 <= j < rows.deep_view().len() ==> #[trigger] rows.deep_view()[j] == split_ws(
                    data_rows(lines.deep_view())[j],
                ) && rows.deep_view()[j].len() >= 2,
            pts@.len() == i,
            forall|j: int|
                0 <= j < i ==> {
                    let toks = split_ws(data_rows(lines.deep_view())[j]);
                    &&& (#[trigger] pts@[j]).0@ == toks[0]
                    &&& pts@[j].1@ == toks[1]
                },
        decreases rows@.len() - i,
    {
        let row = &rows[i];
        proof {
            assert(rows.deep_view()[i as int] == row.deep_view());
            assert(row.deep_view()[0] == row@[0]@);
            assert(row.deep_view()[1] == row@[1]@);
        }
        pts.push((row[0].clone(), row[1].clone()));
        i = i + 1;
    }
    Ok(pts)
}

} // verus!
