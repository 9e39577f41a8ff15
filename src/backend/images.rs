//! The pixel surface that the rasterizers draw on: an RGBA image buffer of
//! the `image` crate, seen through its width, its height and the colour at
//! each position.
use vstd::prelude::*;
use image::RgbaImage;

verus! {

/// An RGBA image that owns its pixels. Positions run over
/// `0 <= x < width`, `0 <= y < height`; a colour is four channels, in the
/// order red, green, blue, alpha.
#[verifier::external_body]
pub struct Surface {
    img: RgbaImage,
}

/// The colour held at each position of a surface, as its four channels.
pub uninterp spec fn pixels_of(s: Surface) -> Map<(u32, u32), Seq<u8>>;

/// The width of a surface in pixels.
pub uninterp spec fn width_of(s: Surface) -> u32;

/// The height of a surface in pixels.
pub uninterp spec fn height_of(s: Surface) -> u32;

/// The positions of a surface of the given size.
pub open spec fn positions(width: int, height: int) -> Set<(u32, u32)> {
    Set::new(|p: (u32, u32)| p.0 < width && p.1 < height)
}

/// Whether `(x, y)` names a pixel of a surface of the given size.
pub open spec fn in_bounds(x: int, y: int, width: int, height: int) -> bool {
    0 <= x < width && 0 <= y < height
}

/// The pixel map `m` after `color` has been written at every position of
/// `pts`.
pub open spec fn painted(m: Map<(u32, u32), Seq<u8>>, pts: Set<(int, int)>, color: Seq<u8>) -> Map<
    (u32, u32),
    Seq<u8>,
> {
    Map::new(
        |p: (u32, u32)| m.dom().contains(p) || pts.contains((p.0 as int, p.1 as int)),
        |p: (u32, u32)|
            if pts.contains((p.0 as int, p.1 as int)) {
                color
            } else {
                m[p]
            },
    )
}

/// Relies on `ImageBuffer::new`: a buffer of the given size whose every
/// channel is zero. It panics where the byte count overflows `usize`, and
/// the allocation of more than `isize::MAX` bytes panics too.
#[verifier::external_body]
fn blank_image(width: u32, height: u32) -> (r: Surface)
    requires
        4 * (width as int) * (height as int) <= isize::MAX,
    ensures
        width_of(r) == width,
        height_of(r) == height,
        pixels_of(r) == Map::new(
            |p: (u32, u32)| positions(width as int, height as int).contains(p),
            |p: (u32, u32)| seq![0u8, 0u8, 0u8, 0u8],
        ),
{
    Surface { img: RgbaImage::new(width, height) }
}

/// Relies on `ImageBuffer::width`, which returns the stored width.
#[verifier::external_body]
fn image_width(s: &Surface) -> (r: u32)
    ensures
        r == width_of(*s),
{
    s.img.width()
}

/// Relies on `ImageBuffer::height`, which returns the stored height.
#[verifier::external_body]
fn image_height(s: &Surface) -> (r: u32)
    ensures
        r == height_of(*s),
{
    s.img.height()
}

/// Relies on `ImageBuffer::get_pixel`: the four channels stored at `(x, y)`.
/// It panics outside the image.
#[verifier::external_body]
fn get_rgba(s: &Surface, x: u32, y: u32) -> (r: [u8; 4])
    requires
        x < width_of(*s),
        y < height_of(*s),
    ensures
        r@ == pixels_of(*s)[(x, y)],
{
    s.img.get_pixel(x, y).0
}

/// Relies on `ImageBuffer::put_pixel`: it overwrites the four channels of the
/// one pixel at `(x, y)`, leaves the dimensions and every other pixel as they
/// were, and panics outside the image.
#[verifier::external_body]
fn put_rgba(s: &mut Surface, x: u32, y: u32, color: [u8; 4])
    requires
        x < width_of(*old(s)),
        y < height_of(*old(s)),
    ensures
        pixels_of(*final(s)) == pixels_of(*old(s)).insert((x, y), color@),
        width_of(*final(s)) == width_of(*old(s)),
        height_of(*final(s)) == height_of(*old(s)),
{
    s.img.put_pixel(x, y, image::Rgba(color))
}

/// Painting points that all lie on a well-formed surface keeps it well
/// formed.
pub proof fn lemma_painted_wf(before: Surface, after: Surface, pts: Set<(int, int)>, color: Seq<u8>)
    requires
        before.wf(),
        width_of(after) == width_of(before),
        height_of(after) == height_of(before),
        pixels_of(after) == painted(pixels_of(before), pts, color),
        forall|p: (int, int)|
            pts.contains(p) ==> in_bounds(p.0, p.1, width_of(before) as int, height_of(before) as int),
    ensures
        after.wf(),
{
    assert(pixels_of(after).dom() =~= positions(width_of(after) as int, height_of(after) as int));
}

impl Surface {
    /// A surface holds a colour at each of its positions and nowhere else.
    pub open spec fn wf(self) -> bool {
        pixels_of(self).dom() == positions(width_of(self) as int, height_of(self) as int)
    }

    /// A surface of the given size with every channel of every pixel zero.
    pub fn new(width: u32, height: u32) -> (r: Surface)
        requires
            4 * (width as int) * (height as int) <= isize::MAX,
        ensures
            r.wf(),
            width_of(r) == width,
            height_of(r) == height,
            forall|x: u32, y: u32|
                x < width && y < height ==> #[trigger] pixels_of(r)[(x, y)] == seq![0u8, 0u8, 0u8, 0u8],
    {
        let r = blank_image(width, height);
        assert(pixels_of(r).dom() =~= positions(width as int, height as int));
        r
    }

    pub fn width(&self) -> (r: u32)
        ensures
            r == width_of(*self),
    {
        image_width(self)
    }

    pub fn height(&self) -> (r: u32)
        ensures
            r == height_of(*self),
    {
        image_height(self)
    }

    /// The colour at `(x, y)`, or `None` outside the surface.
    pub fn pixel(&self, x: i32, y: i32) -> (r: Option<[u8; 4]>)
        ensures
            r.is_some() == in_bounds(x as int, y as int, width_of(*self) as int, height_of(*self) as int),
            r.is_some() ==> r.unwrap()@ == pixels_of(*self)[(x as u32, y as u32)],
    {
        let w = image_width(self);
        let h = image_height(self);
        if x < 0 || y < 0 || x as u32 >= w || y as u32 >= h {
            return None;
        }
        Some(get_rgba(self, x as u32, y as u32))
    }
}

/// Writes `color` at `(x, y)`. Returns `false`, and leaves the surface as it
/// was, where `(x, y)` lies outside it.
pub fn set(image: &mut Surface, x: i32, y: i32, color: [u8; 4]) -> (r: bool)
    ensures
        r == in_bounds(x as int, y as int, width_of(*old(image)) as int, height_of(*old(image)) as int),
        r ==> pixels_of(*final(image)) == pixels_of(*old(image)).insert((x as u32, y as u32), color@),
        !r ==> *final(image) == *old(image),
        width_of(*final(image)) == width_of(*old(image)),
        height_of(*final(image)) == height_of(*old(image)),
        old(image).wf() ==> final(image).wf(),
{
    let w = image_width(image);
    let h = image_height(image);
    if x < 0 || y < 0 || x as u32 >= w || y as u32 >= h {
        return false;
    }
    put_rgba(image, x as u32, y as u32, color);
    assert(old(image).wf() ==> pixels_of(*image).dom() =~= positions(w as int, h as int));
    true
}

/// Writes `color` at every position of the surface. Always succeeds.
pub fn set_all(image: &mut Surface, color: [u8; 4]) -> (r: bool)
    ensures
        r,
        pixels_of(*final(image)) == painted(
            pixels_of(*old(image)),
            Set::new(|p: (int, int)| in_bounds(p.0, p.1, width_of(*old(image)) as int, height_of(*old(image)) as int)),
            color@,
        ),
        width_of(*final(image)) == width_of(*old(image)),
        height_of(*final(image)) == height_of(*old(image)),
        old(image).wf() ==> final(image).wf(),
{
    let w = image_width(image);
    let h = image_height(image);
    let ghost m0 = pixels_of(*image);
    let mut y: u32 = 0;
    while y < h
        invariant
            y <= h,
            width_of(*image) == w,
            height_of(*image) == h,
            pixels_of(*image) == painted(
                m0,
                Set::new(|p: (int, int)| in_bounds(p.0, p.1, w as int, y as int)),
                color@,
            ),
        decreases h - y,
    {
        let mut x: u32 = 0;
        while x < w
            invariant
                x <= w,
                y < h,
                width_of(*image) == w,
                height_of(*image) == h,
                pixels_of(*image) == painted(
                    m0,
                    Set::new(|p: (int, int)| in_bounds(p.0, p.1, w as int, y as int) || (p.1 == y && 0 <= p.0 < x)),
                    color@,
                ),
            decreases w - x,
        {
            let ghost before = pixels_of(*image);
            put_rgba(image, x, y, color);
            proof {
                assert(pixels_of(*image) =~= painted(
                    m0,
                    Set::new(|p: (int, int)| in_bounds(p.0, p.1, w as int, y as int) || (p.1 == y && 0 <= p.0 < x + 1)),
                    color@,
                ));
            }
            x = x + 1;
        }
        proof {
            assert(pixels_of(*image) =~= painted(
                m0,
                Set::new(|p: (int, int)| in_bounds(p.0, p.1, w as int, y + 1)),
                color@,
            ));
        }
        y = y + 1;
    }
    proof {
        assert(Set::new(|p: (int, int)| in_bounds(p.0, p.1, w as int, y as int)) =~= Set::new(
            |p: (int, int)| in_bounds(p.0, p.1, w as int, h as int),
        ));
        if old(image).wf() {
            lemma_painted_wf(
                *old(image),
                *image,
                Set::new(|p: (int, int)| in_bounds(p.0, p.1, w as int, h as int)),
                color@,
            );
        }
    }
    true
}

} // verus!
