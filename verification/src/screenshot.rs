//! The screenshot tool: the requested region, the capture commands' region
//! arguments and PowerShell script, and the PNG header of the result.
use vstd::prelude::*;
use crate::file_tools::{ascii_lower, eq_ignore_case};
use crate::paths::{relative_path, relative_to};
use crate::numbers::{decimal, decimal_signed, i64_to_string, parse_i32, parse_i32_spec, u64_to_string};
use crate::text::{
    chars_of, has_char, lemma_split_at_sep, lemma_split_plain, one_of, push_char, split_any,
    split_any_vec, split_on, trim, trim_str, views,
};

verus! {

/// What to capture.
#[derive(Clone, Copy, Debug, PartialEq, Eq, Structural)]
pub enum CaptureRegion {
    /// The whole screen.
    Full,
    /// A rectangle of the screen.
    Rect { x: i32, y: i32, width: i32, height: i32 },
}

/// Why a region was refused.
#[derive(Clone, Debug)]
pub enum RegionError {
    /// `window` is not supported yet.
    WindowUnsupported,
    /// Not `full` and not four comma-separated parts.
    Malformed { region: String },
    InvalidX { part: String },
    InvalidY { part: String },
    InvalidWidth { part: String },
    InvalidHeight { part: String },
    /// Width or height is not positive.
    NotPositive,
}

impl RegionError {
    /// The message shown to the caller.
    pub fn message(&self) -> (r: String)
        ensures
            self is WindowUnsupported ==> r@
                == "region 'window' is not supported by portal_screenshot yet; use 'full' or 'x,y,w,h'"@,
            self matches RegionError::Malformed { region } ==> r@ == "Invalid region '"@ + region@
                + "'; expected 'full' or 'x,y,w,h'"@,
            self matches RegionError::InvalidX { part } ==> r@ == "Invalid region x coordinate: '"@
                + part@ + "'"@,
            self matches RegionError::InvalidY { part } ==> r@ == "Invalid region y coordinate: '"@
                + part@ + "'"@,
            self matches RegionError::InvalidWidth { part } ==> r@ == "Invalid region width: '"@
                + part@ + "'"@,
            self matches RegionError::InvalidHeight { part } ==> r@ == "Invalid region height: '"@
                + part@ + "'"@,
            self is NotPositive ==> r@ == "Region width and height must be positive"@,
    {
        match self {
            RegionError::WindowUnsupported => String::from_str(
                "region 'window' is not supported by portal_screenshot yet; use 'full' or 'x,y,w,h'",
            ),
            RegionError::Malformed { region } => {
                let mut m = String::from_str("Invalid region '");
                m.append(region.as_str());
                m.append("'; expected 'full' or 'x,y,w,h'");
                m
            },
            RegionError::InvalidX { part } => quoted_message("Invalid region x coordinate: '", part),
            RegionError::InvalidY { part } => quoted_message("Invalid region y coordinate: '", part),
            RegionError::InvalidWidth { part } => quoted_message("Invalid region width: '", part),
            RegionError::InvalidHeight { part } => quoted_message("Invalid region height: '", part),
            RegionError::NotPositive => String::from_str("Region width and height must be positive"),
        }
    }
}

/// `prefix`, `part` and a closing quote.
fn quoted_message(prefix: &str, part: &String) -> (r: String)
    ensures
        r@ == prefix@ + part@ + "'"@,
{
    let mut m = String::from_str(prefix);
    m.append(part.as_str());
    m.append("'");
    m
}

/// The trimmed comma-separated parts of a region.
pub open spec fn region_parts(region: Seq<char>) -> Seq<Seq<char>> {
    split_any(region, seq![',']).map_values(|p: Seq<char>| trim(p))
}

/// What a region text means: `full` (any ASCII case) or empty is the whole
/// screen; `window` is refused; otherwise four comma-separated integers
/// `x,y,w,h` with a positive width and height.
pub open spec fn region_spec(region: Seq<char>) -> Result<CaptureRegion, ()> {
    if eq_ignore_case(region, "full"@) || region.len() == 0 {
        Ok(CaptureRegion::Full)
    } else if eq_ignore_case(region, "window"@) {
        Err(())
    } else {
        let p = region_parts(region);
        if p.len() != 4 {
            Err(())
        } else {
            match (parse_i32_spec(p[0]), parse_i32_spec(p[1]), parse_i32_spec(p[2]), parse_i32_spec(p[3])) {
                (Some(x), Some(y), Some(w), Some(h)) => if w <= 0 || h <= 0 {
                    Err(())
                } else {
                    Ok(CaptureRegion::Rect { x: x as i32, y: y as i32, width: w as i32, height: h as i32 })
                },
                _ => Err(()),
            }
        }
    }
}

/// Four region parts joined by commas: `a[0],a[1],a[2],a[3]`.
pub open spec fn comma_joined(a: Seq<Seq<char>>) -> Seq<char> {
    a[0] + seq![','] + a[1] + seq![','] + a[2] + seq![','] + a[3]
}

/// A text with no comma is one piece when split at commas.
proof fn lemma_no_comma_one_piece(p: Seq<char>)
    requires
        !has_char(p, ','),
    ensures
        split_on(p, one_of(seq![','])) == seq![p],
{
    let sep = one_of(seq![',']);
    assert forall|k: int| 0 <= k < p.len() implies !sep(#[trigger] p[k]) by {
        if sep(p[k]) {
            let idx = choose|idx: int| 0 <= idx < 1 && seq![','][idx] == p[k];
            assert(p[k] == ',');
        }
    }
    lemma_split_plain(Seq::empty(), p, sep);
    assert(Seq::<char>::empty() + p =~= p);
}

/// Four comma-free parts joined by commas split back into those parts, and
/// the joined text is neither empty nor `full` nor `window`.
proof fn lemma_comma_joined_parts(a: Seq<Seq<char>>)
    requires
        a.len() == 4,
        forall|i: int| 0 <= i < 4 ==> !has_char(#[trigger] a[i], ','),
    ensures
        split_any(comma_joined(a), seq![',']) == a,
        comma_joined(a).len() > 0,
        !eq_ignore_case(comma_joined(a), "full"@),
        !eq_ignore_case(comma_joined(a), "window"@),
{
    let sep = one_of(seq![',']);
    assert(sep(',')) by {
        assert(seq![','][0] == ',');
    }
    let c = seq![','];
    let r3 = a[2] + c + a[3];
    let r2 = a[1] + c + r3;
    let j = comma_joined(a);
    assert(j =~= a[0] + c + r2);
    assert(a[1] + c + r3 =~= a[1] + seq![','] + r3);
    lemma_split_at_sep(a[0], ',', r2, sep);
    lemma_split_at_sep(a[1], ',', r3, sep);
    lemma_split_at_sep(a[2], ',', a[3], sep);
    lemma_no_comma_one_piece(a[0]);
    lemma_no_comma_one_piece(a[1]);
    lemma_no_comma_one_piece(a[2]);
    lemma_no_comma_one_piece(a[3]);
    assert(split_on(j, sep) =~= a);
    let k = a[0].len() as int;
    assert(j[k] == ',');
    assert(ascii_lower(',') == ',');
    reveal_strlit("full");
    reveal_strlit("window");
    if eq_ignore_case(j, "full"@) {
        assert(ascii_lower(j[k]) == "full"@[k]);
    }
    if eq_ignore_case(j, "window"@) {
        assert(ascii_lower(j[k]) == "window"@[k]);
    }
}

/// Whitespace around the parts of a region does not matter: two regions
/// whose four comma-separated parts agree once trimmed mean the same.
pub proof fn lemma_region_ignores_part_whitespace(a: Seq<Seq<char>>, b: Seq<Seq<char>>)
    requires
        a.len() == 4,
        b.len() == 4,
        forall|i: int| 0 <= i < 4 ==> !has_char(#[trigger] a[i], ','),
        forall|i: int| 0 <= i < 4 ==> !has_char(#[trigger] b[i], ','),
        forall|i: int| 0 <= i < 4 ==> trim(#[trigger] a[i]) == trim(b[i]),
    ensures
        region_spec(comma_joined(a)) == region_spec(comma_joined(b)),
{
    lemma_comma_joined_parts(a);
    lemma_comma_joined_parts(b);
    assert(region_parts(comma_joined(a)) =~= region_parts(comma_joined(b))) by {
        assert forall|i: int| 0 <= i < 4 implies region_parts(comma_joined(a))[i] == region_parts(
            comma_joined(b),
        )[i] by {
            assert(trim(a[i]) == trim(b[i]));
        }
    }
}

/// `x,y,w,h` whose trimmed parts are the numerals of `x`, `y` and positive
/// `w`, `h` is the rectangle at (`x`, `y`) of that size.
pub proof fn lemma_region_rect(a: Seq<Seq<char>>, x: i32, y: i32, w: i32, h: i32)
    requires
        a.len() == 4,
        forall|i: int| 0 <= i < 4 ==> !has_char(#[trigger] a[i], ','),
        parse_i32_spec(trim(a[0])) == Some(x as int),
        parse_i32_spec(trim(a[1])) == Some(y as int),
        parse_i32_spec(trim(a[2])) == Some(w as int),
        parse_i32_spec(trim(a[3])) == Some(h as int),
        w > 0,
        h > 0,
    ensures
        region_spec(comma_joined(a)) == Ok::<CaptureRegion, ()>(
            CaptureRegion::Rect { x, y, width: w, height: h },
        ),
{
    lemma_comma_joined_parts(a);
    let p = region_parts(comma_joined(a));
    assert(p[0] == trim(a[0]));
    assert(p[1] == trim(a[1]));
    assert(p[2] == trim(a[2]));
    assert(p[3] == trim(a[3]));
}

/// A region whose width or height is zero or negative is refused.
pub proof fn lemma_region_not_positive_refused(a: Seq<Seq<char>>, w: int, h: int)
    requires
        a.len() == 4,
        forall|i: int| 0 <= i < 4 ==> !has_char(#[trigger] a[i], ','),
        parse_i32_spec(trim(a[2])) == Some(w),
        parse_i32_spec(trim(a[3])) == Some(h),
        w <= 0 || h <= 0,
    ensures
        region_spec(comma_joined(a)) is Err,
{
    lemma_comma_joined_parts(a);
    let p = region_parts(comma_joined(a));
    assert(p[2] == trim(a[2]));
    assert(p[3] == trim(a[3]));
}

/// Whether `cs` spells the lowercase word `w`, ignoring ASCII case.
fn word_is(cs: &Vec<char>, w: &str) -> (r: bool)
    ensures
        r == eq_ignore_case(cs@, w@),
{
    let wc = chars_of(w);
    if cs.len() != wc.len() {
        return false;
    }
    let mut i: usize = 0;
    while i < cs.len()
        invariant
            i <= cs.len() == wc.len(),
            wc@ == w@,
            forall|k: int| 0 <= k < i ==> ascii_lower(#[trigger] cs@[k]) == wc@[k],
        decreases cs.len() - i,
    {
        let c = cs[i];
        let lower: u32 = if 'A' <= c && c <= 'Z' {
            c as u32 + 32
        } else {
            c as u32
        };
        proof {
            vstd::utf8::char_u32_cast(c, c as u32);
            vstd::utf8::char_u32_cast(wc@[i as int], wc@[i as int] as u32);
            assert(lower == ascii_lower(c) as u32);
        }
        if lower != wc[i] as u32 {
            return false;
        }
        i += 1;
    }
    true
}

/// Reads a region argument (see [`region_spec`]); errors name the part at fault.
pub fn parse_region(region: &str) -> (r: Result<CaptureRegion, RegionError>)
    ensures
        match region_spec(region@) {
            Ok(c) => r == Ok::<CaptureRegion, RegionError>(c),
            Err(()) => r is Err,
        },
        eq_ignore_case(region@, "window"@) ==> r matches Err(RegionError::WindowUnsupported),
{
    let cs = chars_of(region);
    proof {
        reveal_strlit("full");
        reveal_strlit("window");
        if eq_ignore_case(region@, "window"@) {
            assert(!eq_ignore_case(region@, "full"@));
        }
    }
    if word_is(&cs, "full") || cs.len() == 0 {
        return Ok(CaptureRegion::Full);
    }
    if word_is(&cs, "window") {
        return Err(RegionError::WindowUnsupported);
    }
    let comma = vec![','];
    assert(comma@ =~= seq![',']);
    let raw = split_any_vec(&cs, &comma);
    let mut parts: Vec<String> = Vec::new();
    let mut i: usize = 0;
    while i < raw.len()
        invariant
            i <= raw.len(),
            views(raw@) == split_any(region@, seq![',']),
            views(parts@) == views(raw@).take(i as int).map_values(|p: Seq<char>| trim(p)),
        decreases raw.len() - i,
    {
        let t = trim_str(raw[i].as_str());
        let ghost before = views(parts@);
        parts.push(t);
        assert(views(raw@)[i as int] == raw@[i as int]@);
        assert(views(parts@) =~= before.push(t@));
        assert(views(raw@).take(i + 1).map_values(|p: Seq<char>| trim(p)) =~= views(raw@).take(
            i as int,
        ).map_values(|p: Seq<char>| trim(p)).push(trim(raw@[i as int]@)));
        i += 1;
    }
    assert(views(raw@).take(raw.len() as int) =~= views(raw@));
    assert(views(parts@) == region_parts(region@));
    if parts.len() != 4 {
        return Err(RegionError::Malformed { region: region.to_owned() });
    }
    proof {
        assert(views(parts@)[0] == parts@[0]@);
        assert(views(parts@)[1] == parts@[1]@);
        assert(views(parts@)[2] == parts@[2]@);
        assert(views(parts@)[3] == parts@[3]@);
    }
    let x = match parse_i32(parts[0].as_str()) {
        Some(v) => v,
        None => return Err(RegionError::InvalidX { part: parts[0].clone() }),
    };
    let y = match parse_i32(parts[1].as_str()) {
        Some(v) => v,
        None => return Err(RegionError::InvalidY { part: parts[1].clone() }),
    };
    let width = match parse_i32(parts[2].as_str()) {
        Some(v) => v,
        None => return Err(RegionError::InvalidWidth { part: parts[2].clone() }),
    };
    let height = match parse_i32(parts[3].as_str()) {
        Some(v) => v,
        None => return Err(RegionError::InvalidHeight { part: parts[3].clone() }),
    };
    if width <= 0 || height <= 0 {
        return Err(RegionError::NotPositive);
    }
    Ok(CaptureRegion::Rect { x, y, width, height })
}

/// `value` with every `'` doubled.
pub open spec fn double_quotes(value: Seq<char>) -> Seq<char>
    decreases value.len(),
{
    if value.len() == 0 {
        Seq::empty()
    } else {
        double_quotes(value.drop_last()) + if value.last() == '\'' {
            seq!['\'', '\'']
        } else {
            seq![value.last()]
        }
    }
}

/// `value` as a PowerShell single-quoted literal.
pub fn powershell_single_quoted(value: &str) -> (r: String)
    ensures
        r@ == "'"@ + double_quotes(value@) + "'"@,
{
    let cs = chars_of(value);
    let mut body = String::new();
    let mut i: usize = 0;
    while i < cs.len()
        invariant
            i <= cs.len(),
            cs@ == value@,
            body@ == double_quotes(cs@.take(i as int)),
        decreases cs.len() - i,
    {
        assert(cs@.take(i + 1).drop_last() =~= cs@.take(i as int));
        let ghost before = body@;
        if cs[i] == '\'' {
            push_char(&mut body, '\'');
            push_char(&mut body, '\'');
            assert(body@ =~= before + seq!['\'', '\'']);
        } else {
            push_char(&mut body, cs[i]);
            assert(body@ =~= before + seq![cs@[i as int]]);
        }
        i += 1;
    }
    assert(cs@.take(cs@.len() as int) =~= cs@);
    let mut out = String::from_str("'");
    out.append(body.as_str());
    out.append("'");
    out
}

/// The PowerShell script that saves a PNG of `region` to the already quoted path `q`.
pub open spec fn capture_script_spec(q: Seq<char>, region: CaptureRegion) -> Seq<char> {
    match region {
        CaptureRegion::Full => "Add-Type -AssemblyName System.Windows.Forms; Add-Type -AssemblyName System.Drawing; $screen = [System.Windows.Forms.Screen]::PrimaryScreen.Bounds; $bitmap = New-Object System.Drawing.Bitmap($screen.Width, $screen.Height); $graphics = [System.Drawing.Graphics]::FromImage($bitmap); $graphics.CopyFromScreen($screen.Location, [System.Drawing.Point]::Empty, $screen.Size); $bitmap.Save("@
            + q
            + ", [System.Drawing.Imaging.ImageFormat]::Png); $graphics.Dispose(); $bitmap.Dispose()"@,
        CaptureRegion::Rect { x, y, width, height } => {
            let w = decimal_signed(width as int);
            let h = decimal_signed(height as int);
            "Add-Type -AssemblyName System.Drawing; $bitmap = New-Object System.Drawing.Bitmap("@ + w
                + ", "@ + h
                + "); $graphics = [System.Drawing.Graphics]::FromImage($bitmap); $graphics.CopyFromScreen("@
                + decimal_signed(x as int) + ", "@ + decimal_signed(y as int)
                + ", 0, 0, (New-Object System.Drawing.Size("@ + w + ", "@ + h
                + "))); $bitmap.Save("@ + q
                + ", [System.Drawing.Imaging.ImageFormat]::Png); $graphics.Dispose(); $bitmap.Dispose()"@
        },
    }
}

/// The PowerShell script that captures `region` into the PNG file `path` (Windows).
pub fn powershell_capture_script(path: &str, region: &CaptureRegion) -> (r: String)
    ensures
        r@ == capture_script_spec("'"@ + double_quotes(path@) + "'"@, *region),
{
    let q = powershell_single_quoted(path);
    match region {
        CaptureRegion::Full => {
            let mut s = String::from_str(
                "Add-Type -AssemblyName System.Windows.Forms; Add-Type -AssemblyName System.Drawing; $screen = [System.Windows.Forms.Screen]::PrimaryScreen.Bounds; $bitmap = New-Object System.Drawing.Bitmap($screen.Width, $screen.Height); $graphics = [System.Drawing.Graphics]::FromImage($bitmap); $graphics.CopyFromScreen($screen.Location, [System.Drawing.Point]::Empty, $screen.Size); $bitmap.Save(",
            );
            s.append(q.as_str());
            s.append(
                ", [System.Drawing.Imaging.ImageFormat]::Png); $graphics.Dispose(); $bitmap.Dispose()",
            );
            s
        },
        CaptureRegion::Rect { x, y, width, height } => {
            let w = i64_to_string(*width as i64);
            let h = i64_to_string(*height as i64);
            let mut s = String::from_str(
                "Add-Type -AssemblyName System.Drawing; $bitmap = New-Object System.Drawing.Bitmap(",
            );
            s.append(w.as_str());
            s.append(", ");
            s.append(h.as_str());
            s.append(
                "); $graphics = [System.Drawing.Graphics]::FromImage($bitmap); $graphics.CopyFromScreen(",
            );
            s.append(i64_to_string(*x as i64).as_str());
            s.append(", ");
            s.append(i64_to_string(*y as i64).as_str());
            s.append(", 0, 0, (New-Object System.Drawing.Size(");
            s.append(w.as_str());
            s.append(", ");
            s.append(h.as_str());
            s.append("))); $bitmap.Save(");
            s.append(q.as_str());
            s.append(
                ", [System.Drawing.Imaging.ImageFormat]::Png); $graphics.Dispose(); $bitmap.Dispose()",
            );
            s
        },
    }
}

/// The rectangle as `x,y,w,h` (macOS `screencapture -R`, `scrot -a`).
pub fn rect_argument(x: i32, y: i32, width: i32, height: i32) -> (r: String)
    ensures
        r@ == decimal_signed(x as int) + ","@ + decimal_signed(y as int) + ","@ + decimal_signed(
            width as int,
        ) + ","@ + decimal_signed(height as int),
{
    let mut s = i64_to_string(x as i64);
    s.append(",");
    s.append(i64_to_string(y as i64).as_str());
    s.append(",");
    s.append(i64_to_string(width as i64).as_str());
    s.append(",");
    s.append(i64_to_string(height as i64).as_str());
    s
}

/// The rectangle as ImageMagick's `import -crop` geometry `WxH+X+Y`.
pub fn crop_geometry(x: i32, y: i32, width: i32, height: i32) -> (r: String)
    ensures
        r@ == decimal_signed(width as int) + "x"@ + decimal_signed(height as int) + "+"@
            + decimal_signed(x as int) + "+"@ + decimal_signed(y as int),
{
    let mut s = i64_to_string(width as i64);
    s.append("x");
    s.append(i64_to_string(height as i64).as_str());
    s.append("+");
    s.append(i64_to_string(x as i64).as_str());
    s.append("+");
    s.append(i64_to_string(y as i64).as_str());
    s
}

/// The PNG file signature.
pub open spec fn png_signature() -> Seq<u8> {
    seq![0x89u8, 0x50u8, 0x4eu8, 0x47u8, 0x0du8, 0x0au8, 0x1au8, 0x0au8]
}

/// The `IHDR` chunk type.
pub open spec fn ihdr() -> Seq<u8> {
    seq![0x49u8, 0x48u8, 0x44u8, 0x52u8]
}

/// The big-endian number in `b[i..i+4]`.
pub open spec fn be_u32(b: Seq<u8>, i: int) -> int {
    b[i] * 0x1000000 + b[i + 1] * 0x10000 + b[i + 2] * 0x100 + b[i + 3]
}

/// The width and height of a PNG from its first 24 bytes: the signature,
/// then at 12 the `IHDR` chunk, with width and height big-endian at 16 and 20.
pub open spec fn png_dimensions_spec(b: Seq<u8>) -> Option<(int, int)> {
    if b.len() < 24 || b.take(8) != png_signature() || b.subrange(12, 16) != ihdr() {
        None
    } else {
        Some((be_u32(b, 16), be_u32(b, 20)))
    }
}

/// The width and height a PNG header declares, if `bytes` starts with one.
pub fn parse_png_dimensions(bytes: &[u8]) -> (r: Option<(u32, u32)>)
    ensures
        match png_dimensions_spec(bytes@) {
            Some((w, h)) => r matches Some((rw, rh)) && rw == w && rh == h,
            None => r is None,
        },
{
    if bytes.len() < 24 {
        return None;
    }
    let sig = bytes[0] == 0x89 && bytes[1] == 0x50 && bytes[2] == 0x4e && bytes[3] == 0x47
        && bytes[4] == 0x0d && bytes[5] == 0x0a && bytes[6] == 0x1a && bytes[7] == 0x0a;
    let chunk = bytes[12] == 0x49 && bytes[13] == 0x48 && bytes[14] == 0x44 && bytes[15] == 0x52;
    proof {
        if sig {
            assert(bytes@.take(8) =~= png_signature());
        } else if bytes@.take(8) == png_signature() {
            assert(bytes@.take(8)[0] == 0x89 && bytes@.take(8)[1] == 0x50 && bytes@.take(8)[2]
                == 0x4e && bytes@.take(8)[3] == 0x47 && bytes@.take(8)[4] == 0x0d && bytes@.take(
                8,
            )[5] == 0x0a && bytes@.take(8)[6] == 0x1a && bytes@.take(8)[7] == 0x0a);
        }
        if chunk {
            assert(bytes@.subrange(12, 16) =~= ihdr());
        } else if bytes@.subrange(12, 16) == ihdr() {
            assert(bytes@.subrange(12, 16)[0] == 0x49 && bytes@.subrange(12, 16)[1] == 0x48
                && bytes@.subrange(12, 16)[2] == 0x44 && bytes@.subrange(12, 16)[3] == 0x52);
        }
    }
    if !sig || !chunk {
        return None;
    }
    let w: u32 = (bytes[16] as u32) * 0x1000000 + (bytes[17] as u32) * 0x10000 + (bytes[18] as u32)
        * 0x100 + (bytes[19] as u32);
    let h: u32 = (bytes[20] as u32) * 0x1000000 + (bytes[21] as u32) * 0x10000 + (bytes[22] as u32)
        * 0x100 + (bytes[23] as u32);
    Some((w, h))
}

/// A relative path as shown: `.` for the empty path.
pub fn pathbuf_to_string(path: &str) -> (r: String)
    ensures
        path@.len() == 0 ==> r@ == "."@,
        path@.len() > 0 ==> r@ == path@,
{
    if path.is_empty() {
        String::from_str(".")
    } else {
        path.to_owned()
    }
}

/// How a saved capture's path is shown: relative to the workspace root, or
/// else to the root's canonical form (when it has one), `.` for the root
/// itself; the path as given when it lies under neither.
pub open spec fn display_path_spec(path: Seq<char>, root: Seq<char>, canonical_root: Option<Seq<char>>) -> Seq<char> {
    let shown = |rel: Seq<char>| if rel.len() == 0 {
        "."@
    } else {
        rel
    };
    match relative_to(path, root) {
        Some(rel) => shown(rel),
        None => match canonical_root {
            Some(c) => match relative_to(path, c) {
                Some(rel) => shown(rel),
                None => path,
            },
            None => path,
        },
    }
}

/// How a saved capture's path is shown (see [`display_path_spec`]).
pub fn display_path(path: &str, root: &str, canonical_root: Option<&str>) -> (r: String)
    ensures
        r@ == display_path_spec(
            path@,
            root@,
            match canonical_root {
                Some(c) => Some(c@),
                None => None,
            },
        ),
{
    if let Some(rel) = relative_path(path, root) {
        return pathbuf_to_string(rel.as_str());
    }
    if let Some(c) = canonical_root {
        if let Some(rel) = relative_path(path, c) {
            return pathbuf_to_string(rel.as_str());
        }
    }
    path.to_owned()
}

/// Where a screenshot goes by default, for the clock reading `millis`
/// (milliseconds since 1970).
pub fn default_screenshot_path(millis: u64) -> (r: String)
    ensures
        r@ == ".screenshots/capture-"@ + decimal(millis as nat) + ".png"@,
{
    let mut s = String::from_str(".screenshots/capture-");
    s.append(u64_to_string(millis).as_str());
    s.append(".png");
    s
}

/// The file a capture is saved to: the trimmed `path` argument when it is
/// not blank, else `default_path`.
pub fn screenshot_target(path: Option<&str>, default_path: String) -> (r: String)
    ensures
        match path {
            Some(p) => if trim(p@).len() > 0 {
                r@ == trim(p@)
            } else {
                r@ == default_path@
            },
            None => r@ == default_path@,
        },
{
    match path {
        Some(p) => {
            let t = trim_str(p);
            if t.as_str().is_empty() {
                default_path
            } else {
                t
            }
        },
        None => default_path,
    }
}

} // verus!
