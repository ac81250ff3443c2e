//! Integer geometry of OCR'd pages: word boxes, the crop around a cluster of
//! figure labels, and the tests that keep a crop from being the whole page.
use vstd::prelude::*;
use crate::numbers::{decimal, decimal_exec, parse_unsigned, parse_unsigned_exec};
use crate::text::{chars_of, find, find_exec, lemma_find_from, push_all, push_str, slice, string_of};

verus! {

/// Page size in pixels.
#[derive(Debug, Clone, Copy, PartialEq, Eq, Structural)]
pub struct PdfImageSize {
    pub width: u32,
    pub height: u32,
}

/// An ImageMagick crop: size and offset in pixels.
#[derive(Debug, Clone, Copy, PartialEq, Eq, Structural)]
pub struct PdfCropGeometry {
    pub width: u32,
    pub height: u32,
    pub left: u32,
    pub top: u32,
}

/// One word recognised by OCR, with its box.
#[derive(Debug, Clone)]
pub struct PdfOcrWord {
    pub left: u32,
    pub top: u32,
    pub width: u32,
    pub height: u32,
    pub text: String,
}

/// `a.saturating_add(b)` for `u32`.
pub open spec fn sat_add(a: u32, b: u32) -> u32 {
    if a + b > u32::MAX {
        u32::MAX
    } else {
        (a + b) as u32
    }
}

/// `a.saturating_sub(b)` for `u32`.
pub open spec fn sat_sub(a: u32, b: u32) -> u32 {
    if a < b {
        0
    } else {
        (a - b) as u32
    }
}

/// `a.saturating_mul(b)` for `u32`.
pub open spec fn sat_mul(a: u32, b: u32) -> u32 {
    if a * b > u32::MAX {
        u32::MAX
    } else {
        (a * b) as u32
    }
}

impl PdfOcrWord {
    pub open spec fn right_spec(&self) -> u32 {
        sat_add(self.left, self.width)
    }

    pub open spec fn bottom_spec(&self) -> u32 {
        sat_add(self.top, self.height)
    }

    pub open spec fn center_y_spec(&self) -> u32 {
        sat_add(self.top, self.height / 2)
    }

    pub fn right(&self) -> (r: u32)
        ensures
            r == self.right_spec(),
    {
        self.left.saturating_add(self.width)
    }

    pub fn bottom(&self) -> (r: u32)
        ensures
            r == self.bottom_spec(),
    {
        self.top.saturating_add(self.height)
    }

    pub fn center_y(&self) -> (r: u32)
        ensures
            r == self.center_y_spec(),
    {
        self.top.saturating_add(self.height / 2)
    }
}

/// Minimum of `f` over the words.
pub open spec fn min_of(ws: Seq<PdfOcrWord>, f: spec_fn(PdfOcrWord) -> u32) -> u32
    decreases ws.len(),
{
    if ws.len() <= 1 {
        f(ws[0])
    } else {
        let m = min_of(ws.drop_last(), f);
        if f(ws.last()) < m {
            f(ws.last())
        } else {
            m
        }
    }
}

/// Maximum of `f` over the words.
pub open spec fn max_of(ws: Seq<PdfOcrWord>, f: spec_fn(PdfOcrWord) -> u32) -> u32
    decreases ws.len(),
{
    if ws.len() <= 1 {
        f(ws[0])
    } else {
        let m = max_of(ws.drop_last(), f);
        if f(ws.last()) > m {
            f(ws.last())
        } else {
            m
        }
    }
}

pub open spec fn left_of(w: PdfOcrWord) -> u32 {
    w.left
}

pub open spec fn top_of(w: PdfOcrWord) -> u32 {
    w.top
}

pub open spec fn right_of(w: PdfOcrWord) -> u32 {
    w.right_spec()
}

pub open spec fn bottom_of(w: PdfOcrWord) -> u32 {
    w.bottom_spec()
}

/// The bounding box `(left, top, right, bottom)` of the words, if any.
pub open spec fn bbox_spec(ws: Seq<PdfOcrWord>) -> Option<(u32, u32, u32, u32)> {
    if ws.len() == 0 {
        None
    } else {
        Some(
            (
                min_of(ws, |w: PdfOcrWord| left_of(w)),
                min_of(ws, |w: PdfOcrWord| top_of(w)),
                max_of(ws, |w: PdfOcrWord| right_of(w)),
                max_of(ws, |w: PdfOcrWord| bottom_of(w)),
            ),
        )
    }
}

/// The bounding box of the words, or `None` for no words.
pub fn ocr_words_bbox(words: &[PdfOcrWord]) -> (r: Option<(u32, u32, u32, u32)>)
    ensures
        r == bbox_spec(words@),
{
    if words.len() == 0 {
        return None;
    }
    let mut left = words[0].left;
    let mut top = words[0].top;
    let mut right = words[0].right();
    let mut bottom = words[0].bottom();
    let mut i: usize = 1;
    while i < words.len()
        invariant
            1 <= i <= words.len(),
            left == min_of(words@.take(i as int), |w: PdfOcrWord| left_of(w)),
            top == min_of(words@.take(i as int), |w: PdfOcrWord| top_of(w)),
            right == max_of(words@.take(i as int), |w: PdfOcrWord| right_of(w)),
            bottom == max_of(words@.take(i as int), |w: PdfOcrWord| bottom_of(w)),
        decreases words.len() - i,
    {
        let w = &words[i];
        proof {
            assert(words@.take(i + 1).drop_last() =~= words@.take(i as int));
            assert(words@.take(i + 1).last() == *w);
        }
        if w.left < left {
            left = w.left;
        }
        if w.top < top {
            top = w.top;
        }
        let r = w.right();
        if r > right {
            right = r;
        }
        let b = w.bottom();
        if b > bottom {
            bottom = b;
        }
        i += 1;
    }
    proof {
        assert(words@.take(i as int) =~= words@);
    }
    Some((left, top, right, bottom))
}

/// Area of the bounding box (`u64::MAX` for no words).
pub open spec fn bbox_area_spec(ws: Seq<PdfOcrWord>) -> u64 {
    match bbox_spec(ws) {
        None => u64::MAX,
        Some((l, t, r, b)) => (sat_sub(r, l) as int * sat_sub(b, t) as int) as u64,
    }
}

pub fn ocr_words_bbox_area(words: &[PdfOcrWord]) -> (r: u64)
    ensures
        r == bbox_area_spec(words@),
{
    match ocr_words_bbox(words) {
        None => u64::MAX,
        Some((left, top, right, bottom)) => {
            let w = right.saturating_sub(left) as u64;
            let h = bottom.saturating_sub(top) as u64;
            proof {
                assert(w * h <= u32::MAX * u32::MAX) by (nonlinear_arith)
                    requires w <= u32::MAX, h <= u32::MAX;
            }
            w * h
        },
    }
}

/// `v.clamp(lo, hi)` for `lo <= hi`.
pub open spec fn clamp(v: u32, lo: u32, hi: u32) -> u32 {
    if v < lo {
        lo
    } else if v > hi {
        hi
    } else {
        v
    }
}

pub open spec fn min_u32(a: u32, b: u32) -> u32 {
    if a < b {
        a
    } else {
        b
    }
}

pub open spec fn max_u32(a: u32, b: u32) -> u32 {
    if a > b {
        a
    } else {
        b
    }
}


/// `u32::saturating_mul`.
pub fn sat_mul_u32(a: u32, b: u32) -> (r: u32)
    ensures
        r == sat_mul(a, b),
{
    let x = a as u64;
    let y = b as u64;
    proof {
        assert(x * y <= 0xFFFF_FFFFu64 * 0xFFFF_FFFFu64) by (nonlinear_arith)
            requires x <= 0xFFFF_FFFFu64, y <= 0xFFFF_FFFFu64;
    }
    let p = x * y;
    if p > u32::MAX as u64 {
        u32::MAX
    } else {
        p as u32
    }
}

/// `u64::saturating_mul` by a small factor.
pub fn sat_mul_u64(a: u64, b: u64) -> (r: u64)
    ensures
        r == (if a * b > u64::MAX { u64::MAX as int } else { a * b }),
{
    if a == 0 || b == 0 {
        proof {
            assert(a * b == 0) by (nonlinear_arith) requires a == 0 || b == 0;
        }
        return 0;
    }
    if a > u64::MAX / b {
        proof {
            assert(a * b > u64::MAX) by (nonlinear_arith) requires a > u64::MAX / b, b > 0;
        }
        u64::MAX
    } else {
        proof {
            assert(a * b <= u64::MAX) by (nonlinear_arith) requires a <= u64::MAX / b, b > 0;
        }
        a * b
    }
}

/// `u32::clamp`.
pub fn clamp_u32(v: u32, lo: u32, hi: u32) -> (r: u32)
    requires
        lo <= hi,
    ensures
        r == clamp(v, lo, hi),
{
    if v < lo {
        lo
    } else if v > hi {
        hi
    } else {
        v
    }
}

pub fn min_u32_exec(a: u32, b: u32) -> (r: u32)
    ensures
        r == min_u32(a, b),
{
    if a < b {
        a
    } else {
        b
    }
}

pub fn max_u32_exec(a: u32, b: u32) -> (r: u32)
    ensures
        r == max_u32(a, b),
{
    if a > b {
        a
    } else {
        b
    }
}

/// The crop around the words: their box padded by a twentieth of the visible
/// width and a twenty-fourth of the visible height (each clamped to 16..120
/// pixels), kept inside the shaved margins, with offsets relative to them.
pub open spec fn crop_geometry_spec(
    ws: Seq<PdfOcrWord>,
    page: PdfImageSize,
    shave_x: u32,
    shave_y: u32,
) -> Option<PdfCropGeometry> {
    let vw = sat_sub(page.width, sat_mul(shave_x, 2));
    let vh = sat_sub(page.height, sat_mul(shave_y, 2));
    if vw == 0 || vh == 0 {
        None
    } else {
        match bbox_spec(ws) {
            None => None,
            Some((left, top, right, bottom)) => {
                let pad_x = clamp(vw / 20, 16, 120);
                let pad_y = clamp(vh / 24, 16, 120);
                let cl = max_u32(sat_sub(left, pad_x), shave_x);
                let ct = max_u32(sat_sub(top, pad_y), shave_y);
                let cr = min_u32(sat_add(right, pad_x), sat_sub(page.width, shave_x));
                let cb = min_u32(sat_add(bottom, pad_y), sat_sub(page.height, shave_y));
                if cr <= cl || cb <= ct {
                    None
                } else {
                    Some(
                        PdfCropGeometry {
                            width: sat_sub(cr, cl),
                            height: sat_sub(cb, ct),
                            left: sat_sub(cl, shave_x),
                            top: sat_sub(ct, shave_y),
                        },
                    )
                }
            },
        }
    }
}

pub fn ocr_words_crop_geometry(
    words: &[PdfOcrWord],
    page_size: PdfImageSize,
    shave_x: u32,
    shave_y: u32,
) -> (r: Option<PdfCropGeometry>)
    ensures
        r == crop_geometry_spec(words@, page_size, shave_x, shave_y),
{
    let visible_width = page_size.width.saturating_sub(sat_mul_u32(shave_x, 2));
    let visible_height = page_size.height.saturating_sub(sat_mul_u32(shave_y, 2));
    if visible_width == 0 || visible_height == 0 {
        return None;
    }
    let (left, top, right, bottom) = match ocr_words_bbox(words) {
        Some(b) => b,
        None => return None,
    };
    let pad_x = clamp_u32(visible_width / 20, 16, 120);
    let pad_y = clamp_u32(visible_height / 24, 16, 120);
    let crop_left_page = max_u32_exec(left.saturating_sub(pad_x), shave_x);
    let crop_top_page = max_u32_exec(top.saturating_sub(pad_y), shave_y);
    let crop_right_page = min_u32_exec(right.saturating_add(pad_x), page_size.width.saturating_sub(shave_x));
    let crop_bottom_page = min_u32_exec(
        bottom.saturating_add(pad_y),
        page_size.height.saturating_sub(shave_y),
    );
    if crop_right_page <= crop_left_page || crop_bottom_page <= crop_top_page {
        return None;
    }
    Some(
        PdfCropGeometry {
            width: crop_right_page.saturating_sub(crop_left_page),
            height: crop_bottom_page.saturating_sub(crop_top_page),
            left: crop_left_page.saturating_sub(shave_x),
            top: crop_top_page.saturating_sub(shave_y),
        },
    )
}

/// A crop is useful when it is neither tiny (under a twelfth of the visible
/// width or height) nor most of the page (over nine tenths of the width, over
/// seven tenths of the height, or over 35% of the area), and lies inside the
/// visible page.
pub open spec fn useful_crop_spec(g: PdfCropGeometry, page: PdfImageSize, shave_x: u32, shave_y: u32) -> bool {
    let vw = sat_sub(page.width, sat_mul(shave_x, 2));
    let vh = sat_sub(page.height, sat_mul(shave_y, 2));
    let crop_area = g.width as int * g.height as int;
    let visible_area = vw as int * vh as int;
    &&& vw != 0 && vh != 0
    &&& g.width >= vw / 12 && g.height >= vh / 12
    &&& g.width <= sat_mul(vw, 9) / 10 && g.height <= sat_mul(vh, 7) / 10
    &&& sat_add(g.left, g.width) <= vw && sat_add(g.top, g.height) <= vh
    &&& (if crop_area * 100 > u64::MAX { u64::MAX as int } else { crop_area * 100 }) <= (
    if visible_area * 35 > u64::MAX {
        u64::MAX as int
    } else {
        visible_area * 35
    })
}

pub fn is_useful_pdf_figure_crop(
    geometry: PdfCropGeometry,
    page_size: PdfImageSize,
    shave_x: u32,
    shave_y: u32,
) -> (r: bool)
    ensures
        r == useful_crop_spec(geometry, page_size, shave_x, shave_y),
{
    let visible_width = page_size.width.saturating_sub(sat_mul_u32(shave_x, 2));
    let visible_height = page_size.height.saturating_sub(sat_mul_u32(shave_y, 2));
    if visible_width == 0 || visible_height == 0 {
        return false;
    }
    if geometry.width < visible_width / 12 || geometry.height < visible_height / 12 {
        return false;
    }
    if geometry.width > sat_mul_u32(visible_width, 9) / 10 || geometry.height
        > sat_mul_u32(visible_height, 7) / 10 {
        return false;
    }
    if geometry.left.saturating_add(geometry.width) > visible_width || geometry.top.saturating_add(
        geometry.height,
    ) > visible_height {
        return false;
    }
    let gw = geometry.width as u64;
    let gh = geometry.height as u64;
    let vw = visible_width as u64;
    let vh = visible_height as u64;
    proof {
        assert(gw * gh <= u32::MAX * u32::MAX) by (nonlinear_arith)
            requires gw <= u32::MAX, gh <= u32::MAX;
        assert(vw * vh <= u32::MAX * u32::MAX) by (nonlinear_arith)
            requires vw <= u32::MAX, vh <= u32::MAX;
    }
    let crop_area = gw * gh;
    let visible_area = vw * vh;
    sat_mul_u64(crop_area, 100) <= sat_mul_u64(visible_area, 35)
}

/// A label-cluster crop must also hold at least four labels and cover an
/// eighth of the visible width and height.
pub open spec fn useful_label_crop_spec(
    g: PdfCropGeometry,
    page: PdfImageSize,
    shave_x: u32,
    shave_y: u32,
    label_count: nat,
) -> bool {
    let vw = sat_sub(page.width, sat_mul(shave_x, 2));
    let vh = sat_sub(page.height, sat_mul(shave_y, 2));
    label_count >= 4 && useful_crop_spec(g, page, shave_x, shave_y) && g.width >= vw / 8
        && g.height >= vh / 8
}

pub fn is_useful_pdf_label_figure_crop(
    geometry: PdfCropGeometry,
    page_size: PdfImageSize,
    shave_x: u32,
    shave_y: u32,
    label_count: usize,
) -> (r: bool)
    ensures
        r == useful_label_crop_spec(geometry, page_size, shave_x, shave_y, label_count as nat),
{
    if label_count < 4 || !is_useful_pdf_figure_crop(geometry, page_size, shave_x, shave_y) {
        return false;
    }
    let visible_width = page_size.width.saturating_sub(sat_mul_u32(shave_x, 2));
    let visible_height = page_size.height.saturating_sub(sat_mul_u32(shave_y, 2));
    geometry.width >= visible_width / 8 && geometry.height >= visible_height / 8
}

/// The ImageMagick geometry text `WxH+L+T`.
pub open spec fn geometry_text_spec(g: PdfCropGeometry) -> Seq<char> {
    decimal(g.width as nat) + "x"@ + decimal(g.height as nat) + "+"@ + decimal(g.left as nat) + "+"@
        + decimal(g.top as nat)
}

pub fn pdf_crop_geometry_text(geometry: PdfCropGeometry) -> (r: String)
    ensures
        r@ == geometry_text_spec(geometry),
{
    let mut out = decimal_exec(geometry.width as u64);
    push_str(&mut out, "x");
    let h = decimal_exec(geometry.height as u64);
    push_all(&mut out, &h);
    push_str(&mut out, "+");
    let l = decimal_exec(geometry.left as u64);
    push_all(&mut out, &l);
    push_str(&mut out, "+");
    let t = decimal_exec(geometry.top as u64);
    push_all(&mut out, &t);
    string_of(&out)
}

/// `s.split_once(c)`: the text before and after the first `c`.
pub open spec fn split_once(s: Seq<char>, c: char) -> Option<(Seq<char>, Seq<char>)> {
    match find(s, seq![c]) {
        Some(i) => if 0 <= i < s.len() {
            Some((s.take(i), s.skip(i + 1)))
        } else {
            None
        },
        None => None,
    }
}

pub fn split_once_exec(s: &Vec<char>, c: char) -> (r: Option<(Vec<char>, Vec<char>)>)
    ensures
        match r {
            Some((a, b)) => split_once(s@, c) == Some((a@, b@)),
            None => split_once(s@, c) is None,
        },
{
    let mut pat: Vec<char> = Vec::new();
    pat.push(c);
    proof {
        assert(pat@ =~= seq![c]);
    }
    match find_exec(s, &pat) {
        Some(i) => {
            proof {
                lemma_find_from(s@, pat@, 0);
            }
            let _n = s.len();
            let a = slice(s, 0, i);
            let b = slice(s, i + 1, s.len());
            proof {
                assert(a@ =~= s@.take(i as int));
                assert(b@ =~= s@.skip(i + 1));
            }
            Some((a, b))
        },
        None => None,
    }
}

/// Parse `WxH+L+T`.
pub open spec fn parse_geometry_spec(s: Seq<char>) -> Option<PdfCropGeometry> {
    match split_once(s, '+') {
        None => None,
        Some((size, offset)) => match split_once(size, 'x') {
            None => None,
            Some((w, h)) => match split_once(offset, '+') {
                None => None,
                Some((l, t)) => match (
                    parse_unsigned(w, u32::MAX as nat),
                    parse_unsigned(h, u32::MAX as nat),
                    parse_unsigned(l, u32::MAX as nat),
                    parse_unsigned(t, u32::MAX as nat),
                ) {
                    (Some(w), Some(h), Some(l), Some(t)) => Some(
                        PdfCropGeometry {
                            width: w as u32,
                            height: h as u32,
                            left: l as u32,
                            top: t as u32,
                        },
                    ),
                    _ => None,
                },
            },
        },
    }
}

pub fn parse_pdf_crop_geometry(input: &str) -> (r: Option<PdfCropGeometry>)
    ensures
        r == parse_geometry_spec(input@),
{
    let s = chars_of(input);
    let (size, offset) = match split_once_exec(&s, '+') {
        Some(p) => p,
        None => return None,
    };
    let (w, h) = match split_once_exec(&size, 'x') {
        Some(p) => p,
        None => return None,
    };
    let (l, t) = match split_once_exec(&offset, '+') {
        Some(p) => p,
        None => return None,
    };
    let max = u32::MAX as u64;
    let wv = parse_unsigned_exec(&w, max);
    let hv = parse_unsigned_exec(&h, max);
    let lv = parse_unsigned_exec(&l, max);
    let tv = parse_unsigned_exec(&t, max);
    match (wv, hv, lv, tv) {
        (Some(w), Some(h), Some(l), Some(t)) => Some(
            PdfCropGeometry { width: w as u32, height: h as u32, left: l as u32, top: t as u32 },
        ),
        _ => None,
    }
}

} // verus!
