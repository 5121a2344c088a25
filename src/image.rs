use vstd::prelude::*;

verus! {

/// Byte `k` (0 for the lowest) of a packed pixel. Pixels are packed with red in
/// the lowest byte, then green, blue and alpha.
pub open spec fn channel(p: u32, k: nat) -> u8 {
    ((p >> ((8 * k) as u32)) & 0xffu32) as u8
}

/// The pixel with channels `r`, `g`, `b` and an opaque alpha.
pub open spec fn rgb_pixel(r: u8, g: u8, b: u8) -> u32 {
    (r as u32) | ((g as u32) << 8u32) | ((b as u32) << 16u32) | (0xffu32 << 24u32)
}

/// Packs three channels into an opaque pixel.
pub fn pack_rgb(r: u8, g: u8, b: u8) -> (p: u32)
    ensures
        p == rgb_pixel(r, g, b),
        channel(p, 0) == r,
        channel(p, 1) == g,
        channel(p, 2) == b,
        channel(p, 3) == 255,
{
    let p = (r as u32) | ((g as u32) << 8u32) | ((b as u32) << 16u32) | (0xffu32 << 24u32);
    assert(((p >> 0u32) & 0xffu32) as u8 == r && ((p >> 8u32) & 0xffu32) as u8 == g && ((p
        >> 16u32) & 0xffu32) as u8 == b && ((p >> 24u32) & 0xffu32) as u8 == 255u8)
        by (bit_vector)
        requires
            p == (r as u32) | ((g as u32) << 8u32) | ((b as u32) << 16u32) | (0xffu32 << 24u32),
    ;
    p
}

/// The red, green and blue bytes of the first `n` pixels of `data`, in order.
pub open spec fn rgb_raw(data: Seq<u32>, n: nat) -> Seq<u8>
    decreases n,
{
    if n == 0 {
        Seq::empty()
    } else {
        let p = data[n - 1];
        rgb_raw(data, (n - 1) as nat) + seq![channel(p, 0), channel(p, 1), channel(p, 2)]
    }
}

/// A width × height grid of packed pixels, row-major.
pub struct ImageBuff {
    pub width: usize,
    pub height: usize,
    pub data: Vec<u32>,
}

impl ImageBuff {
    /// Every pixel of the grid has a cell in `data`.
    pub open spec fn wf(&self) -> bool {
        self.data@.len() == self.width * self.height
    }

    /// The cell of pixel (x, y).
    pub open spec fn at(&self, x: int, y: int) -> u32 {
        self.data@[y * self.width + x]
    }

    /// A grid over a copy of `d`.
    pub fn new(w: usize, h: usize, d: &[u32]) -> (r: Self)
        ensures
            r.width == w,
            r.height == h,
            r.data@ == d@,
    {
        let mut data: Vec<u32> = Vec::new();
        let mut i: usize = 0;
        while i < d.len()
            invariant
                i <= d@.len(),
                data@ == d@.subrange(0, i as int),
            decreases d@.len() - i,
        {
            data.push(d[i]);
            i = i + 1;
            assert(data@ =~= d@.subrange(0, i as int));
        }
        assert(data@ =~= d@);
        ImageBuff { width: w, height: h, data }
    }

    /// A grid whose pixels are all zero.
    pub fn create(w: usize, h: usize) -> (r: Self)
        requires
            w * h <= usize::MAX,
        ensures
            r.width == w,
            r.height == h,
            r.data@ == Seq::new((w * h) as nat, |i: int| 0u32),
            r.wf(),
    {
        Self::create_with_a_color(w, h, 0)
    }

    /// A grid whose pixels all hold `color`.
    pub fn create_with_a_color(w: usize, h: usize, color: u32) -> (r: Self)
        requires
            w * h <= usize::MAX,
        ensures
            r.width == w,
            r.height == h,
            r.data@ == Seq::new((w * h) as nat, |i: int| color),
            r.wf(),
    {
        let n: usize = w * h;
        let mut data: Vec<u32> = Vec::new();
        let mut i: usize = 0;
        while i < n
            invariant
                i <= n,
                data@ == Seq::new(i as nat, |j: int| color),
            decreases n - i,
        {
            data.push(color);
            i = i + 1;
            assert(data@ =~= Seq::new(i as nat, |j: int| color));
        }
        ImageBuff { width: w, height: h, data }
    }

    /// Appends the red, green and blue bytes of each pixel to `content`.
    pub fn to_rgb_raw(&self, content: &mut Vec<u8>)
        requires
            self.data@.len() >= self.width * self.height,
            self.width * self.height <= usize::MAX,
        ensures
            final(content)@ == old(content)@ + rgb_raw(self.data@, (self.width * self.height) as nat),
    {
        let n: usize = self.width * self.height;
        let mut x: usize = 0;
        while x < n
            invariant
                x <= n,
                n == self.width * self.height,
                self.data@.len() >= n,
                content@ == old(content)@ + rgb_raw(self.data@, x as nat),
            decreases n - x,
        {
            let p = self.data[x];
            let r = (p & 0xffu32) as u8;
            let g = ((p >> 8u32) & 0xffu32) as u8;
            let b = ((p >> 16u32) & 0xffu32) as u8;
            assert(r == channel(p, 0) && g == channel(p, 1) && b == channel(p, 2)) by {
                assert((p >> 0u32) == p) by (bit_vector);
            }
            content.push(r);
            content.push(g);
            content.push(b);
            x = x + 1;
            assert(content@ =~= old(content)@ + rgb_raw(self.data@, x as nat));
        }
    }
}

/// An image that is to be written to the file `name`.
pub struct ImageFile {
    pub name: String,
    pub image_buff: Option<ImageBuff>,
}

impl ImageFile {
    /// A file holder with no image yet.
    pub fn new(name: &str) -> (r: Self)
        ensures
            r.name@ == name@,
            r.image_buff.is_none(),
    {
        ImageFile { name: name.to_owned(), image_buff: None }
    }

    /// Sets the image to be written, replacing any earlier one.
    pub fn add_image_buff(&mut self, imgae_buff: ImageBuff)
        ensures
            final(self).name == old(self).name,
            final(self).image_buff == Some(imgae_buff),
    {
        self.image_buff = Some(imgae_buff);
    }
}

} // verus!
