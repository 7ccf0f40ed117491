//! The picture that the video stream shows: a synthetic pattern in planar
//! YUV 4:2:0, one byte per sample.

use vstd::prelude::*;

verus! {

/// One plane of a picture: `linesize` bytes from the start of one row to the
/// start of the next.
#[derive(Debug)]
pub struct Plane {
    pub data: Vec<u8>,
    pub linesize: usize,
}

/// A picture in planar YUV 4:2:0: the luma plane at full size, the two chroma
/// planes at half the width and half the height.
#[derive(Debug)]
pub struct Picture {
    pub y: Plane,
    pub cb: Plane,
    pub cr: Plane,
}

/// Which plane of a picture.
#[derive(Debug, Clone, Copy, PartialEq, Eq, Structural)]
pub enum Component {
    Luma,
    Cb,
    Cr,
}

/// The byte of the pattern at column `x` and row `y` of a plane, in the picture
/// with the number `index`.
pub open spec fn pattern(component: Component, x: int, y: int, index: int) -> int {
    match component {
        Component::Luma => (x + y + index * 3) % 256,
        Component::Cb => (128 + y + index * 2) % 256,
        Component::Cr => (64 + x + index * 5) % 256,
    }
}

/// `data` with the first `rows` rows of the pattern drawn into it, from the top
/// row down, each `width` bytes wide and `linesize` bytes below the one before.
pub open spec fn drawn(
    data: Seq<u8>,
    linesize: int,
    width: int,
    rows: nat,
    component: Component,
    index: int,
) -> Seq<u8>
    decreases rows,
{
    if rows == 0 {
        data
    } else {
        let above = drawn(data, linesize, width, (rows - 1) as nat, component, index);
        let start = (rows - 1) * linesize;
        Seq::new(
            above.len(),
            |k: int|
                if start <= k < start + width {
                    pattern(component, k - start, rows - 1, index) as u8
                } else {
                    above[k]
                },
        )
    }
}

impl Plane {
    /// The plane has room for `height` rows of `width` bytes.
    pub open spec fn holds(self, width: int, height: int) -> bool {
        width > 0 && height > 0 ==> (height - 1) * self.linesize + width <= self.data@.len()
    }

    /// The plane after `height` rows of `width` bytes of the pattern have been
    /// drawn into it.
    pub open spec fn painted(
        self,
        width: int,
        height: nat,
        component: Component,
        index: int,
    ) -> Seq<u8> {
        drawn(self.data@, self.linesize as int, width, height, component, index)
    }
}

impl Picture {
    /// The picture has room for an image of `width` by `height` pixels.
    pub open spec fn holds(self, width: usize, height: usize) -> bool {
        &&& self.y.holds(width as int, height as int)
        &&& self.cb.holds((width / 2) as int, (height / 2) as int)
        &&& self.cr.holds((width / 2) as int, (height / 2) as int)
    }

    /// `self` is `before` with the image of the number `index`, `width` by
    /// `height` pixels large, drawn into it.
    pub open spec fn shows(
        self,
        before: Picture,
        index: int,
        width: usize,
        height: usize,
    ) -> bool {
        &&& self.y.data@ == before.y.painted(
            width as int,
            height as nat,
            Component::Luma,
            index,
        )
        &&& self.cb.data@ == before.cb.painted(
            (width / 2) as int,
            (height / 2) as nat,
            Component::Cb,
            index,
        )
        &&& self.cr.data@ == before.cr.painted(
            (width / 2) as int,
            (height / 2) as nat,
            Component::Cr,
            index,
        )
        &&& self.y.linesize == before.y.linesize
        &&& self.cb.linesize == before.cb.linesize
        &&& self.cr.linesize == before.cr.linesize
    }
}

impl Plane {
    /// Whether the plane has room for `height` rows of `width` bytes.
    fn has_room(&self, width: usize, height: usize) -> (room: bool)
        ensures
            room == self.holds(width as int, height as int),
    {
        if width == 0 || height == 0 {
            return true;
        }
        let len: usize = self.data.len();
        if width > len {
            assert((height - 1) * self.linesize >= 0) by (nonlinear_arith)
                requires
                    height >= 1,
            ;
            return false;
        }
        match (height - 1).checked_mul(self.linesize) {
            Some(start) => start <= len - width,
            None => false,
        }
    }
}

impl Picture {
    /// Whether the picture has room for an image of `width` by `height` pixels.
    pub fn has_room(&self, width: usize, height: usize) -> (room: bool)
        ensures
            room == self.holds(width, height),
    {
        self.y.has_room(width, height) && self.cb.has_room(width / 2, height / 2)
            && self.cr.has_room(width / 2, height / 2)
    }
}

/// The low byte of a number.
fn low_byte(value: usize) -> (byte: u8)
    ensures
        byte == value as int % 256,
{
    (value % 256) as u8
}

/// The low byte of the two's complement form of a number.
fn low_byte_signed(value: i64) -> (byte: u8)
    ensures
        byte == value as int % 256,
{
    let byte: u8 = value as u8;
    assert(byte == value % 256) by (bit_vector)
        requires
            byte == value as u8,
    ;
    byte
}

/// The byte of the pattern at column `x` and row `y` of a plane.
fn pattern_byte(component: Component, x: usize, y: usize, index: i64) -> (byte: u8)
    ensures
        byte == pattern(component, x as int, y as int, index as int),
{
    let x_low: u32 = low_byte(x) as u32;
    let y_low: u32 = low_byte(y) as u32;
    let index_low: u32 = low_byte_signed(index) as u32;
    let sum: u32 = match component {
        Component::Luma => x_low + y_low + index_low * 3,
        Component::Cb => 128 + y_low + index_low * 2,
        Component::Cr => 64 + x_low + index_low * 5,
    };
    proof {
        let (x, y, index) = (x as int, y as int, index as int);
        match component {
            Component::Luma => {
                lemma_congruent(x + y + index * 3, sum as int, x / 256 + y / 256 + index / 256 * 3);
            },
            Component::Cb => {
                lemma_congruent(128 + y + index * 2, sum as int, y / 256 + index / 256 * 2);
            },
            Component::Cr => {
                lemma_congruent(64 + x + index * 5, sum as int, x / 256 + index / 256 * 5);
            },
        }
    }
    (sum % 256) as u8
}

/// Numbers that differ by a multiple of 256 have the same low byte.
proof fn lemma_congruent(a: int, b: int, quotient: int)
    requires
        a == b + 256 * quotient,
    ensures
        a % 256 == b % 256,
{
}

impl Plane {
    /// Draws `height` rows of `width` bytes of the pattern.
    fn draw(&mut self, component: Component, index: i64, width: usize, height: usize)
        requires
            old(self).holds(width as int, height as int),
        ensures
            final(self).data@ == old(self).painted(
                width as int,
                height as nat,
                component,
                index as int,
            ),
            final(self).linesize == old(self).linesize,
    {
        let ghost before = self.data@;
        let linesize: usize = self.linesize;
        if width == 0 {
            proof {
                lemma_drawn_empty(before, linesize as int, height as nat, component, index as int);
            }
            return;
        }
        let mut y: usize = 0;
        while y < height
            invariant
                y <= height,
                width > 0,
                self.linesize == linesize,
                self.data.len() == before.len(),
                height > 0 ==> (height - 1) * linesize + width <= before.len(),
                self.data@ == drawn(
                    before,
                    linesize as int,
                    width as int,
                    y as nat,
                    component,
                    index as int,
                ),
            decreases height - y,
        {
            let ghost above = self.data@;
            assert(y * linesize <= (height - 1) * linesize) by (nonlinear_arith)
                requires
                    y <= height - 1,
                    linesize >= 0,
            ;
            let start: usize = y * linesize;
            let mut x: usize = 0;
            while x < width
                invariant
                    x <= width,
                    self.linesize == linesize,
                    start == y * linesize,
                    start + width <= above.len(),
                    self.data.len() == above.len(),
                    forall|k: int|
                        0 <= k < above.len() ==> #[trigger] self.data@[k] == if start <= k < start
                            + x {
                            pattern(component, k - start, y as int, index as int) as u8
                        } else {
                            above[k]
                        },
                decreases width - x,
            {
                self.data.set(start + x, pattern_byte(component, x, y, index));
                x += 1;
            }
            y += 1;
            assert(self.data@ =~= drawn(
                before,
                linesize as int,
                width as int,
                y as nat,
                component,
                index as int,
            ));
        }
    }
}

/// Draws the image with the number `frame_index` into `pict`: a pattern of
/// `width` by `height` pixels that moves from one number to the next.
pub fn fill_yuv_image(pict: &mut Picture, frame_index: i64, width: usize, height: usize)
    requires
        old(pict).holds(width, height),
    ensures
        final(pict).shows(*old(pict), frame_index as int, width, height),
        final(pict).holds(width, height),
        final(pict).y.data@.len() == old(pict).y.data@.len(),
        final(pict).cb.data@.len() == old(pict).cb.data@.len(),
        final(pict).cr.data@.len() == old(pict).cr.data@.len(),
        final(pict).y.linesize == old(pict).y.linesize,
        final(pict).cb.linesize == old(pict).cb.linesize,
        final(pict).cr.linesize == old(pict).cr.linesize,
        0 < old(pict).y.linesize && width <= old(pict).y.linesize ==> forall|k: int|
            0 <= k < old(pict).y.data@.len() ==> #[trigger] final(pict).y.data@[k] == {
                let column = k % old(pict).y.linesize as int;
                let row = k / old(pict).y.linesize as int;
                if column < width && row < height {
                    (column + row + 3 * frame_index) % 256
                } else {
                    old(pict).y.data@[k] as int
                }
            },
        0 < old(pict).cb.linesize && width / 2 <= old(pict).cb.linesize ==> forall|k: int|
            0 <= k < old(pict).cb.data@.len() ==> #[trigger] final(pict).cb.data@[k] == {
                let column = k % old(pict).cb.linesize as int;
                let row = k / old(pict).cb.linesize as int;
                if column < width / 2 && row < height / 2 {
                    (128 + row + 2 * frame_index) % 256
                } else {
                    old(pict).cb.data@[k] as int
                }
            },
        0 < old(pict).cr.linesize && width / 2 <= old(pict).cr.linesize ==> forall|k: int|
            0 <= k < old(pict).cr.data@.len() ==> #[trigger] final(pict).cr.data@[k] == {
                let column = k % old(pict).cr.linesize as int;
                let row = k / old(pict).cr.linesize as int;
                if column < width / 2 && row < height / 2 {
                    (64 + column + 5 * frame_index) % 256
                } else {
                    old(pict).cr.data@[k] as int
                }
            },
{
    let ghost (y, cb, cr) = (pict.y, pict.cb, pict.cr);
    proof {
        let (w, h) = (width as int, height as nat);
        let (half_w, half_h) = ((width / 2) as int, (height / 2) as nat);
        let i = frame_index as int;
        lemma_drawn_len(y.data@, y.linesize as int, w, h, Component::Luma, i);
        lemma_drawn_len(cb.data@, cb.linesize as int, half_w, half_h, Component::Cb, i);
        lemma_drawn_len(cr.data@, cr.linesize as int, half_w, half_h, Component::Cr, i);
    }
    pict.y.draw(Component::Luma, frame_index, width, height);
    pict.cb.draw(Component::Cb, frame_index, width / 2, height / 2);
    pict.cr.draw(Component::Cr, frame_index, width / 2, height / 2);
    proof {
        lemma_shows_planes(*pict, Picture { y, cb, cr }, frame_index as int, width, height);
        lemma_shows_bytes(*pict, Picture { y, cb, cr }, frame_index as int, width, height);
    }
}

/// Rows of no width leave a plane as it is.
proof fn lemma_drawn_empty(
    data: Seq<u8>,
    linesize: int,
    rows: nat,
    component: Component,
    index: int,
)
    ensures
        drawn(data, linesize, 0, rows, component, index) == data,
    decreases rows,
{
    if rows > 0 {
        lemma_drawn_empty(data, linesize, (rows - 1) as nat, component, index);
        assert(drawn(data, linesize, 0, rows, component, index) =~= data);
    }
}

/// Drawing keeps the length of a plane.
pub proof fn lemma_drawn_len(
    data: Seq<u8>,
    linesize: int,
    width: int,
    rows: nat,
    component: Component,
    index: int,
)
    ensures
        drawn(data, linesize, width, rows, component, index).len() == data.len(),
    decreases rows,
{
    if rows > 0 {
        lemma_drawn_len(data, linesize, width, (rows - 1) as nat, component, index);
    }
}

/// No row leaves a plane as it is. One more row changes the bytes that it
/// covers, to those of the pattern, and no others; this holds of rows that
/// overlap the ones above them too.
pub proof fn lemma_drawn_next_row(
    data: Seq<u8>,
    linesize: int,
    width: int,
    row: nat,
    component: Component,
    index: int,
    k: int,
)
    requires
        0 <= k < data.len(),
    ensures
        drawn(data, linesize, width, 0, component, index) == data,
        ({
            let above = drawn(data, linesize, width, row, component, index);
            let below = drawn(data, linesize, width, row + 1, component, index);
            let x = k - row * linesize;
            below[k] == if 0 <= x < width {
                pattern(component, x, row as int, index)
            } else {
                above[k] as int
            }
        }),
{
    lemma_drawn_len(data, linesize, width, row, component, index);
    lemma_drawn_len(data, linesize, width, row + 1, component, index);
}

/// Where the rows do not overlap, the byte at `k` belongs to column
/// `k % linesize` of row `k / linesize`: inside the image it holds the pattern,
/// outside it holds what it held.
pub proof fn lemma_drawn_byte(
    data: Seq<u8>,
    linesize: int,
    width: int,
    rows: nat,
    component: Component,
    index: int,
    k: int,
)
    requires
        0 <= width <= linesize,
        0 < linesize,
        0 <= k < data.len(),
    ensures
        drawn(data, linesize, width, rows, component, index)[k] == if k % linesize < width && k
            / linesize < rows {
            pattern(component, k % linesize, k / linesize, index)
        } else {
            data[k] as int
        },
    decreases rows,
{
    if rows > 0 {
        let start = (rows - 1) * linesize;
        lemma_drawn_len(data, linesize, width, (rows - 1) as nat, component, index);
        lemma_drawn_byte(data, linesize, width, (rows - 1) as nat, component, index, k);
        vstd::arithmetic::div_mod::lemma_fundamental_div_mod(k, linesize);
        vstd::arithmetic::div_mod::lemma_mod_bound(k, linesize);
        if start <= k < start + width {
            vstd::arithmetic::div_mod::lemma_fundamental_div_mod_converse(
                k,
                linesize,
                rows - 1,
                k - start,
            );
        } else if k / linesize == rows - 1 {
            assert(linesize * (k / linesize) == start) by (nonlinear_arith)
                requires
                    k / linesize == rows - 1,
                    start == (rows - 1) * linesize,
            ;
        }
    } else {
        assert(k / linesize >= 0) by (nonlinear_arith)
            requires
                k >= 0,
                linesize > 0,
        ;
    }
}

/// A plane has room for an image exactly if every pixel of it lies inside: an
/// image without pixels always fits, and one whose last pixel lies inside fits.
pub proof fn lemma_plane_holds(plane: Plane, width: int, height: int, x: int, y: int)
    requires
        0 <= width,
        0 <= height,
    ensures
        width == 0 || height == 0 ==> plane.holds(width, height),
        plane.holds(width, height) && 0 <= x < width && 0 <= y < height ==> 0 <= y
            * plane.linesize + x < plane.data@.len(),
        width > 0 && height > 0 && (height - 1) * plane.linesize + (width - 1)
            < plane.data@.len() ==> plane.holds(width, height),
{
    if 0 <= x < width && 0 <= y < height {
        assert(0 <= y * plane.linesize <= (height - 1) * plane.linesize) by (nonlinear_arith)
            requires
                0 <= y <= height - 1,
                plane.linesize >= 0,
        ;
    }
}

/// A picture has room for an image exactly if its luma plane has room for the
/// image, and its chroma planes for one of half the width and half the height.
pub proof fn lemma_picture_holds(picture: Picture, width: usize, height: usize)
    ensures
        picture.holds(width, height) <==> {
            &&& picture.y.holds(width as int, height as int)
            &&& picture.cb.holds(width as int / 2, height as int / 2)
            &&& picture.cr.holds(width as int / 2, height as int / 2)
        },
{
}

/// What a picture shows after an image was drawn into it: each plane is what its
/// rows were drawn into, the chroma planes at half the size, and no line got
/// longer or shorter.
pub proof fn lemma_shows_planes(
    after: Picture,
    before: Picture,
    index: int,
    width: usize,
    height: usize,
)
    requires
        after.shows(before, index, width, height),
    ensures
        after.y.data@ == drawn(
            before.y.data@,
            before.y.linesize as int,
            width as int,
            height as nat,
            Component::Luma,
            index,
        ),
        after.cb.data@ == drawn(
            before.cb.data@,
            before.cb.linesize as int,
            width as int / 2,
            (height as int / 2) as nat,
            Component::Cb,
            index,
        ),
        after.cr.data@ == drawn(
            before.cr.data@,
            before.cr.linesize as int,
            width as int / 2,
            (height as int / 2) as nat,
            Component::Cr,
            index,
        ),
        after.y.data@.len() == before.y.data@.len(),
        after.cb.data@.len() == before.cb.data@.len(),
        after.cr.data@.len() == before.cr.data@.len(),
        after.y.linesize == before.y.linesize,
        after.cb.linesize == before.cb.linesize,
        after.cr.linesize == before.cr.linesize,
{
    let (w, h) = (width as int, height as nat);
    let (half_w, half_h) = ((width / 2) as int, (height / 2) as nat);
    lemma_drawn_len(before.y.data@, before.y.linesize as int, w, h, Component::Luma, index);
    lemma_drawn_len(
        before.cb.data@,
        before.cb.linesize as int,
        half_w,
        half_h,
        Component::Cb,
        index,
    );
    lemma_drawn_len(
        before.cr.data@,
        before.cr.linesize as int,
        half_w,
        half_h,
        Component::Cr,
        index,
    );
}

/// Every byte of a picture after an image was drawn into it, where the lines are
/// no shorter than the rows: in the luma plane, column plus row plus three times
/// the number of the image; in the Cb plane, 128 plus the row plus twice the
/// number; in the Cr plane, 64 plus the column plus five times the number; and
/// outside the image what was there.
pub proof fn lemma_shows_bytes(
    after: Picture,
    before: Picture,
    index: int,
    width: usize,
    height: usize,
)
    requires
        after.shows(before, index, width, height),
    ensures
        0 < before.y.linesize && width <= before.y.linesize ==> forall|k: int|
            0 <= k < before.y.data@.len() ==> #[trigger] after.y.data@[k] == {
                let (column, row) = (
                    k % before.y.linesize as int,
                    k / before.y.linesize as int,
                );
                if column < width && row < height {
                    (column + row + 3 * index) % 256
                } else {
                    before.y.data@[k] as int
                }
            },
        0 < before.cb.linesize && width / 2 <= before.cb.linesize ==> forall|k: int|
            0 <= k < before.cb.data@.len() ==> #[trigger] after.cb.data@[k] == {
                let (column, row) = (
                    k % before.cb.linesize as int,
                    k / before.cb.linesize as int,
                );
                if column < width / 2 && row < height / 2 {
                    (128 + row + 2 * index) % 256
                } else {
                    before.cb.data@[k] as int
                }
            },
        0 < before.cr.linesize && width / 2 <= before.cr.linesize ==> forall|k: int|
            0 <= k < before.cr.data@.len() ==> #[trigger] after.cr.data@[k] == {
                let (column, row) = (
                    k % before.cr.linesize as int,
                    k / before.cr.linesize as int,
                );
                if column < width / 2 && row < height / 2 {
                    (64 + column + 5 * index) % 256
                } else {
                    before.cr.data@[k] as int
                }
            },
{
    lemma_shows_planes(after, before, index, width, height);
    let (w, h) = (width as int, height as nat);
    let (half_w, half_h) = (width as int / 2, (height as int / 2) as nat);
    if 0 < before.y.linesize && width <= before.y.linesize {
        let l = before.y.linesize as int;
        assert forall|k: int| 0 <= k < before.y.data@.len() implies #[trigger] after.y.data@[k]
            == {
            let (column, row) = (k % l, k / l);
            if column < width && row < height {
                (column + row + 3 * index) % 256
            } else {
                before.y.data@[k] as int
            }
        } by {
            lemma_drawn_byte(before.y.data@, l, w, h, Component::Luma, index, k);
            lemma_pattern_bytes(k % l, k / l, index);
        }
    }
    if 0 < before.cb.linesize && width / 2 <= before.cb.linesize {
        let l = before.cb.linesize as int;
        assert forall|k: int| 0 <= k < before.cb.data@.len() implies #[trigger] after.cb.data@[k]
            == {
            let (column, row) = (k % l, k / l);
            if column < width / 2 && row < height / 2 {
                (128 + row + 2 * index) % 256
            } else {
                before.cb.data@[k] as int
            }
        } by {
            lemma_drawn_byte(before.cb.data@, l, half_w, half_h, Component::Cb, index, k);
            lemma_pattern_bytes(k % l, k / l, index);
        }
    }
    if 0 < before.cr.linesize && width / 2 <= before.cr.linesize {
        let l = before.cr.linesize as int;
        assert forall|k: int| 0 <= k < before.cr.data@.len() implies #[trigger] after.cr.data@[k]
            == {
            let (column, row) = (k % l, k / l);
            if column < width / 2 && row < height / 2 {
                (64 + column + 5 * index) % 256
            } else {
                before.cr.data@[k] as int
            }
        } by {
            lemma_drawn_byte(before.cr.data@, l, half_w, half_h, Component::Cr, index, k);
            lemma_pattern_bytes(k % l, k / l, index);
        }
    }
}

/// Where the rows do not overlap, every pixel of the image holds its byte of
/// the pattern: column `x` of row `y` lies `y * linesize + x` bytes into the plane.
pub proof fn lemma_drawn_pixel(
    data: Seq<u8>,
    linesize: int,
    width: int,
    rows: nat,
    component: Component,
    index: int,
    x: int,
    y: int,
)
    requires
        0 <= width <= linesize,
        0 <= x < width,
        0 <= y < rows,
        (rows - 1) * linesize + width <= data.len(),
    ensures
        0 <= y * linesize + x < data.len(),
        drawn(data, linesize, width, rows, component, index)[y * linesize + x] == pattern(
            component,
            x,
            y,
            index,
        ),
    decreases rows,
{
    let k = y * linesize + x;
    let start = (rows - 1) * linesize;
    lemma_drawn_len(data, linesize, width, (rows - 1) as nat, component, index);
    assert(0 <= y * linesize <= start) by (nonlinear_arith)
        requires
            start == (rows - 1) * linesize,
            0 <= y <= rows - 1,
            linesize >= 0,
    ;
    if y < rows - 1 {
        assert(y * linesize <= (rows - 2) * linesize && (rows - 2) * linesize == start - linesize)
            by (nonlinear_arith)
            requires
                start == (rows - 1) * linesize,
                y <= rows - 2,
                linesize >= 0,
        ;
        lemma_drawn_pixel(
            data,
            linesize,
            width,
            (rows - 1) as nat,
            component,
            index,
            x,
            y,
        );
    }
}

/// What lies right of the image, or below it, is left as it was: a byte whose
/// column, counted from the start of its line, is not below `width`, or whose
/// line is not below `rows`.
pub proof fn lemma_drawn_padding(
    data: Seq<u8>,
    linesize: int,
    width: int,
    rows: nat,
    component: Component,
    index: int,
    k: int,
)
    requires
        0 <= width <= linesize,
        linesize > 0,
        0 <= k < data.len(),
        k % linesize >= width || k / linesize >= rows,
    ensures
        drawn(data, linesize, width, rows, component, index)[k] == data[k],
    decreases rows,
{
    if rows > 0 {
        lemma_drawn_len(data, linesize, width, (rows - 1) as nat, component, index);
        lemma_drawn_padding(data, linesize, width, (rows - 1) as nat, component, index, k);
        let start = (rows - 1) * linesize;
        if start <= k < start + width {
            vstd::arithmetic::div_mod::lemma_fundamental_div_mod_converse(
                k,
                linesize,
                rows - 1,
                k - start,
            );
        }
    }
}

/// Nothing of an earlier image shows through: drawing a second image of the
/// same size leaves what drawing it alone would have left.
pub proof fn lemma_drawn_twice(
    data: Seq<u8>,
    linesize: int,
    width: int,
    rows: nat,
    component: Component,
    first: int,
    second: int,
)
    ensures
        drawn(
            drawn(data, linesize, width, rows, component, first),
            linesize,
            width,
            rows,
            component,
            second,
        ) == drawn(data, linesize, width, rows, component, second),
{
    let once = drawn(data, linesize, width, rows, component, first);
    lemma_drawn_len(data, linesize, width, rows, component, first);
    lemma_drawn_len(data, linesize, width, rows, component, second);
    lemma_drawn_len(once, linesize, width, rows, component, second);
    assert forall|k: int| 0 <= k < data.len() implies drawn(
        once,
        linesize,
        width,
        rows,
        component,
        second,
    )[k] == drawn(data, linesize, width, rows, component, second)[k] by {
        lemma_drawn_where(data, linesize, width, rows, component, first, k);
        lemma_drawn_over(once, data, linesize, width, rows, component, second, k);
    }
    assert(drawn(once, linesize, width, rows, component, second) =~= drawn(
        data,
        linesize,
        width,
        rows,
        component,
        second,
    ));
}

/// A byte is covered by one of the first `rows` rows.
spec fn covered(linesize: int, width: int, rows: nat, k: int) -> bool
    decreases rows,
{
    rows > 0 && ((rows - 1) * linesize <= k < (rows - 1) * linesize + width || covered(
        linesize,
        width,
        (rows - 1) as nat,
        k,
    ))
}

/// A byte that no row covers is left as it was.
proof fn lemma_drawn_where(
    data: Seq<u8>,
    linesize: int,
    width: int,
    rows: nat,
    component: Component,
    index: int,
    k: int,
)
    requires
        0 <= k < data.len(),
    ensures
        !covered(linesize, width, rows, k) ==> drawn(
            data,
            linesize,
            width,
            rows,
            component,
            index,
        )[k] == data[k],
    decreases rows,
{
    if rows > 0 {
        lemma_drawn_len(data, linesize, width, (rows - 1) as nat, component, index);
        lemma_drawn_where(data, linesize, width, (rows - 1) as nat, component, index, k);
    }
}

/// A byte that some row covers does not depend on what was drawn over.
proof fn lemma_drawn_over(
    a: Seq<u8>,
    b: Seq<u8>,
    linesize: int,
    width: int,
    rows: nat,
    component: Component,
    index: int,
    k: int,
)
    requires
        a.len() == b.len(),
        0 <= k < a.len(),
        covered(linesize, width, rows, k) || a[k] == b[k],
    ensures
        drawn(a, linesize, width, rows, component, index)[k] == drawn(
            b,
            linesize,
            width,
            rows,
            component,
            index,
        )[k],
    decreases rows,
{
    if rows > 0 {
        lemma_drawn_len(a, linesize, width, (rows - 1) as nat, component, index);
        lemma_drawn_len(b, linesize, width, (rows - 1) as nat, component, index);
        let start = (rows - 1) * linesize;
        if !(start <= k < start + width) {
            lemma_drawn_over(a, b, linesize, width, (rows - 1) as nat, component, index, k);
        }
    }
}

/// Where the pattern starts, and that it is made of bytes.
pub proof fn lemma_pattern_start(component: Component, x: int, y: int, index: int)
    ensures
        pattern(Component::Luma, 0, 0, 0) == 0,
        pattern(Component::Cb, x, 0, 0) == 128,
        pattern(Component::Cr, 0, y, 0) == 64,
        0 <= pattern(component, x, y, index) < 256,
{
}

/// One column to the right, luma and Cr go up by one; Cb is the same in a row.
pub proof fn lemma_pattern_across(x: int, y: int, index: int)
    ensures
        pattern(Component::Luma, x + 1, y, index) == (pattern(Component::Luma, x, y, index) + 1)
            % 256,
        pattern(Component::Cb, x + 1, y, index) == pattern(Component::Cb, x, y, index),
        pattern(Component::Cr, x + 1, y, index) == (pattern(Component::Cr, x, y, index) + 1)
            % 256,
{
}

/// One row down, luma and Cb go up by one; Cr is the same in a column.
pub proof fn lemma_pattern_down(x: int, y: int, index: int)
    ensures
        pattern(Component::Luma, x, y + 1, index) == (pattern(Component::Luma, x, y, index) + 1)
            % 256,
        pattern(Component::Cb, x, y + 1, index) == (pattern(Component::Cb, x, y, index) + 1)
            % 256,
        pattern(Component::Cr, x, y + 1, index) == pattern(Component::Cr, x, y, index),
{
}

/// From one image to the next, luma goes up by three, Cb by two and Cr by five.
pub proof fn lemma_pattern_next_image(x: int, y: int, index: int)
    ensures
        pattern(Component::Luma, x, y, index + 1) == (pattern(Component::Luma, x, y, index) + 3)
            % 256,
        pattern(Component::Cb, x, y, index + 1) == (pattern(Component::Cb, x, y, index) + 2)
            % 256,
        pattern(Component::Cr, x, y, index + 1) == (pattern(Component::Cr, x, y, index) + 5)
            % 256,
{
}

/// The bytes of the pattern, column by column, row by row and image by image.
pub proof fn lemma_pattern_bytes(x: int, y: int, index: int)
    ensures
        pattern(Component::Luma, x, y, index) == (x + y + 3 * index) % 256,
        pattern(Component::Cb, x, y, index) == (128 + y + 2 * index) % 256,
        pattern(Component::Cr, x, y, index) == (64 + x + 5 * index) % 256,
{
}

/// The pattern repeats: images whose numbers are 256 apart are the same image.
pub proof fn lemma_pattern_period(component: Component, x: int, y: int, index: int)
    ensures
        pattern(component, x, y, index + 256) == pattern(component, x, y, index),
{
}

/// The luma pattern moves three pixels to the left, and up, from one image to
/// the next.
pub proof fn lemma_pattern_motion(x: int, y: int, index: int)
    ensures
        pattern(Component::Luma, x, y, index + 1) == pattern(Component::Luma, x + 3, y, index),
        pattern(Component::Luma, x, y, index + 1) == pattern(Component::Luma, x, y + 3, index),
{
}

} // verus!
