//! Colormap selection and palette data. The numeric work of turning a
//! scalar into RGB runs on floating point outside the library; what stands
//! here is the closed set of colormap variants, the selector grammar, and
//! the exact parsing of palette and gradient files.

use crate::text::{
    data_rows, has_prefix, is_u8_token, split_ws, split_whitespace_tokens, str_eq,
    str_starts_with, str_suffix, token_rows, u8_token_val, parse_u8,
};
use crate::FractalError;
use vstd::prelude::*;

verus! {

/// The hot colormap: black through red and yellow to white, in three
/// linear segments.
pub struct ColorMapHot {}

/// The HSV colormap: a full hue turn from red at full saturation and value.
pub struct ColorMapHSV {}

/// IEEE 754 single-precision bit pattern of one half, the amplitude and
/// bias of every cosine-palette channel.
pub const F32_HALF_BITS: u32 = 0x3f00_0000;

/// IEEE 754 single-precision bit pattern of the red-channel phase 0.477 of
/// the cosine palette.
pub const F32_COSINE_PHASE_R_BITS: u32 = 0x3ef4_3958;

/// IEEE 754 single-precision bit pattern of the green-channel phase 0.573
/// of the cosine palette.
pub const F32_COSINE_PHASE_G_BITS: u32 = 0x3f12_b021;

/// IEEE 754 single-precision bit pattern of the blue-channel phase 0.637 of
/// the cosine palette.
pub const F32_COSINE_PHASE_B_BITS: u32 = 0x3f23_126f;

/// The cosine colormap: per channel, a raised cosine of the input with
/// per-channel amplitude `a`, bias `b` and phase `d`, each field an IEEE
/// 754 single-precision bit pattern.
pub struct ColorMap3dCosine {
    pub a: [u32; 3],
    pub b: [u32; 3],
    pub d: [u32; 3],
}

/// A palette of discrete colors read from an indexed palette file; the
/// scalar input selects and blends two neighboring entries.
pub struct ColorMapFromFile {
    pub colors: Vec<(u8, u8, u8)>,
}

/// One control point of a gradient palette file: a position and three
/// channel values, kept as their decimal source tokens (their numeric
/// reading is real-valued and happens outside the library).
pub struct GradientStop {
    pub position: String,
    pub red: String,
    pub green: String,
    pub blue: String,
}

/// A colormap chosen by selector string: one of the built-in variants, or
/// the path of a palette or gradient file still to be loaded.
pub enum ColorMapChoice {
    Hot(ColorMapHot),
    Hsv(ColorMapHSV),
    Cosine(ColorMap3dCosine),
    MapFile(String),
    Gpf(String),
}

/// Choose a colormap from its selector string: `hot`, `hsv` and `cosine`
/// name the built-in maps, `mapfile:<path>` names an indexed palette file,
/// `gpf:<path>` a gradient file; anything else is rejected.
pub fn color_map_from_str(s: &str) -> (r: Result<ColorMapChoice, FractalError>)
    ensures
        s@ == "hot"@ ==> r == Ok::<ColorMapChoice, FractalError>(
            ColorMapChoice::Hot(ColorMapHot {  }),
        ),
        s@ == "hsv"@ ==> r == Ok::<ColorMapChoice, FractalError>(
            ColorMapChoice::Hsv(ColorMapHSV {  }),
        ),
        s@ == "cosine"@ ==> (r matches Ok(c) && c matches ColorMapChoice::Cosine(m) && {
            &&& m.a@ == seq![F32_HALF_BITS, F32_HALF_BITS, F32_HALF_BITS]
            &&& m.b@ == seq![F32_HALF_BITS, F32_HALF_BITS, F32_HALF_BITS]
            &&& m.d@ == seq![
                F32_COSINE_PHASE_R_BITS,
                F32_COSINE_PHASE_G_BITS,
                F32_COSINE_PHASE_B_BITS,
            ]
        }),
        has_prefix(s@, "mapfile:"@) ==> (r matches Ok(c) && c matches ColorMapChoice::MapFile(p)
            && p@ == s@.skip("mapfile:"@.len() as int)),
        has_prefix(s@, "gpf:"@) ==> (r matches Ok(c) && c matches ColorMapChoice::Gpf(p) && p@
            == s@.skip("gpf:"@.len() as int)),
        (r is Err) <==> !(s@ == "hot"@ || s@ == "hsv"@ || s@ == "cosine"@ || has_prefix(
            s@,
            "mapfile:"@,
        ) || has_prefix(s@, "gpf:"@)),
        r matches Err(e) ==> e == FractalError::Configuration,
{
    proof {
        reveal_strlit("hot");
        reveal_strlit("hsv");
        reveal_strlit("cosine");
        reveal_strlit("mapfile:");
        reveal_strlit("gpf:");
        assert("hot"@.len() == 3);
        assert("hsv"@.len() == 3);
        assert("cosine"@.len() == 6);
        assert("mapfile:"@.len() == 8);
        assert("gpf:"@.len() == 4);
        assert("hot"@[1] == 'o');
        assert("hsv"@[1] == 's');
        assert("hot"@ != "hsv"@);
        assert("hot"@ != "cosine"@);
        assert("hsv"@ != "cosine"@);
        assert("mapfile:"@[0] == 'm');
        assert("gpf:"@[0] == 'g');
    }
    if str_eq(s, "hot") {
        Ok(ColorMapChoice::Hot(ColorMapHot {  }))
    } else if str_eq(s, "hsv") {
        Ok(ColorMapChoice::Hsv(ColorMapHSV {  }))
    } else if str_eq(s, "cosine") {
        let m = ColorMap3dCosine {
            a: [F32_HALF_BITS, F32_HALF_BITS, F32_HALF_BITS],
            b: [F32_HALF_BITS, F32_HALF_BITS, F32_HALF_BITS],
            d: [F32_COSINE_PHASE_R_BITS, F32_COSINE_PHASE_G_BITS, F32_COSINE_PHASE_B_BITS],
        };
        proof {
            assert(m.a@ =~= seq![F32_HALF_BITS, F32_HALF_BITS, F32_HALF_BITS]);
            assert(m.b@ =~= seq![F32_HALF_BITS, F32_HALF_BITS, F32_HALF_BITS]);
            assert(m.d@ =~= seq![
                F32_COSINE_PHASE_R_BITS,
                F32_COSINE_PHASE_G_BITS,
                F32_COSINE_PHASE_B_BITS,
            ]);
        }
        Ok(ColorMapChoice::Cosine(m))
    } else if str_starts_with(s, "mapfile:") {
        let path = str_suffix(s, 8);
        Ok(ColorMapChoice::MapFile(path))
    } else if str_starts_with(s, "gpf:") {
        let path = str_suffix(s, 4);
        Ok(ColorMapChoice::Gpf(path))
    } else {
        Err(FractalError::Configuration)
    }
}

/// Whether one indexed-palette line is well formed: at least three tokens,
/// and every token on the line a decimal byte value.
pub open spec fn palette_line_ok(line: Seq<char>) -> bool {
    let toks = split_ws(line);
    toks.len() >= 3 && (forall|t: int| 0 <= t < toks.len() ==> is_u8_token(#[trigger] toks[t]))
}

/// The color an indexed-palette line defines: its first three byte values.
pub open spec fn palette_line_color(line: Seq<char>) -> (u8, u8, u8) {
    let toks = split_ws(line);
    (
        u8_token_val(toks[0]) as u8,
        u8_token_val(toks[1]) as u8,
        u8_token_val(toks[2]) as u8,
    )
}

impl ColorMapFromFile {
    /// Parse the lines of an indexed palette file: one color per line,
    /// whitespace-separated decimal byte values, the first three of which
    /// form the color. A line with fewer than three fields, or any field
    /// that is not a byte value, fails the whole load.
    pub fn from_lines(lines: &Vec<String>) -> (r: Result<ColorMapFromFile, FractalError>)
        ensures
            (r is Ok) <==> (forall|i: int|
                0 <= i < lines@.len() ==> palette_line_ok(#[trigger] lines.deep_view()[i])),
            r matches Ok(cm) ==> {
                &&& cm.colors@.len() == lines@.len()
                &&& forall|i: int|
                    0 <= i < lines@.len() ==> #[trigger] cm.colors@[i] == palette_line_color(
                        lines.deep_view()[i],
                    )
            },
            r matches Err(e) ==> e == FractalError::Parse,
    {
        let mut colors: Vec<(u8, u8, u8)> = Vec::new();
        let mut li: usize = 0;
        while li < lines.len()
            invariant
                li <= lines@.len(),
                colors@.len() == li,
                forall|j: int|
                    0 <= j < li ==> palette_line_ok(#[trigger] lines.deep_view()[j]),
                forall|j: int|
                    0 <= j < li ==> #[trigger] colors@[j] == palette_line_color(
                        lines.deep_view()[j],
                    ),
            decreases lines@.len() - li,
        {
            let line = &lines[li];
            proof {
                assert(lines.deep_view()[li as int] == line@);
            }
            let toks = split_whitespace_tokens(line.as_str());
            if toks.len() < 3 {
                proof {
                    assert(!palette_line_ok(lines.deep_view()[li as int]));
                }
                return Err(FractalError::Parse);
            }
            let mut c: [u8; 3] = [0, 0, 0];
            let mut t: usize = 0;
            while t < toks.len()
                invariant
                    t <= toks@.len(),
                    li < lines@.len(),
                    lines.deep_view()[li as int] == line@,
                    toks.deep_view() == split_ws(line@),
                    toks@.len() >= 3,
                    forall|u: int|
                        0 <= u < t ==> is_u8_token(#[trigger] toks.deep_view()[u]),
                    t >= 1 ==> c@[0] == u8_token_val(toks.deep_view()[0]) as u8,
                    t >= 2 ==> c@[1] == u8_token_val(toks.deep_view()[1]) as u8,
                    t >= 3 ==> c@[2] == u8_token_val(toks.deep_view()[2]) as u8,
                decreases toks@.len() - t,
            {
                proof {
                    assert(toks.deep_view()[t as int] == toks@[t as int]@);
                }
                match parse_u8(toks[t].as_str()) {
                    Some(v) => {
                        if t < 3 {
                            c[t] = v;
                        }
                    },
                    None => {
                        proof {
                            assert(!is_u8_token(split_ws(line@)[t as int]));
                            assert(!palette_line_ok(lines.deep_view()[li as int]));
                        }
                        return Err(FractalError::Parse);
                    },
                }
                t = t + 1;
            }
            colors.push((c[0], c[1], c[2]));
            li = li + 1;
        }
        Ok(ColorMapFromFile { colors })
    }
}

/// Whether one gradient-file data line has enough fields: a position and
/// three channel values.
pub open spec fn gradient_line_ok(line: Seq<char>) -> bool {
    split_ws(line).len() >= 4
}

/// Parse the lines of a gradient palette file into its control points.
/// Lines whose first character is `#` are comments; every other line must
/// carry at least four whitespace-separated fields: a position and three
/// channel values, which later numeric reading interprets as reals.
pub fn gradient_stops_from_lines(lines: &Vec<String>) -> (r: Result<
    Vec<GradientStop>,
    FractalError,
>)
    ensures
        (r is Ok) <==> (forall|i: int|
            0 <= i < data_rows(lines.deep_view()).len() ==> gradient_line_ok(
                #[trigger] data_rows(lines.deep_view())[i],
            )),
        r matches Ok(stops) ==> {
            &&& stops@.len() == data_rows(lines.deep_view()).len()
            &&& forall|i: int|
                0 <= i < stops@.len() ==> {
                    let toks = split_ws(data_rows(lines.deep_view())[i]);
                    &&& (#[trigger] stops@[i]).position@ == toks[0]
                    &&& stops@[i].red@ == toks[1]
                    &&& stops@[i].green@ == toks[2]
                    &&& stops@[i].blue@ == toks[3]
                }
        },
        r matches Err(e) ==> e == FractalError::Parse,
{
    let rows = match token_rows(lines, 4) {
        Ok(rows) => rows,
        Err(e) => {
            return Err(e);
        },
    };
    let mut stops: Vec<GradientStop> = Vec::new();
    let mut i: usize = 0;
    while i < rows.len()
        invariant
            i <= rows@.len(),
            rows.deep_view().len() == data_rows(lines.deep_view()).len(),
            forall|j: int|
                0 <= j < rows.deep_view().len() ==> #[trigger] rows.deep_view()[j] == split_ws(
                    data_rows(lines.deep_view())[j],
                ) && rows.deep_view()[j].len() >= 4,
            stops@.len() == i,
            forall|j: int|
                0 <= j < i ==> {
                    let toks = split_ws(data_rows(lines.deep_view())[j]);
                    &&& (#[trigger] stops@[j]).position@ == toks[0]
                    &&& stops@[j].red@ == toks[1]
                    &&& stops@[j].green@ == toks[2]
                    &&& stops@[j].blue@ == toks[3]
                },
        decreases rows@.len() - i,
    {
        let row = &rows[i];
        proof {
            assert(rows.deep_view()[i as int] == row.deep_view());
            assert(row.deep_view()[0] == row@[0]@);
            assert(row.deep_view()[1] == row@[1]@);
            assert(row.deep_view()[2] == row@[2]@);
            assert(row.deep_view()[3] == row@[3]@);
        }
        let stop = GradientStop {
            position: row[0].clone(),
            red: row[1].clone(),
            green: row[2].clone(),
            blue: row[3].clone(),
        };
        stops.push(stop);
        i = i + 1;
    }
    Ok(stops)
}

} // verus!
