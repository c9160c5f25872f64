//! Decoding of raw CGA and EGA graphics memory into grids of palette
//! indices, and re-tiling of those grids for display.

use vstd::prelude::*;

pub mod bits;
pub mod cga;
pub mod color;
pub mod exp;
pub mod file_data;
pub mod grid;
pub mod image;
pub mod palette;
pub mod parser;
pub mod png;
pub mod terminal;
pub mod text;
pub mod tiling;
pub mod wasm;

verus! {

/// A grid of palette indices: rows from top to bottom, cells from left to right.
pub type RawGrid = Vec<Vec<u8>>;

pub type Grid<T> = Vec<Vec<T>>;

pub type Palette<T> = Vec<T>;

pub type ColorPalette = Vec<crate::color::Color>;

pub type CGAColorPalette = [crate::color::Color; 4];

pub type EGAColorPalette = [crate::color::Color; 16];

/// The colour depth of a raw image.
#[derive(Debug, Clone, Copy, PartialEq, Eq, Structural)]
pub enum ImageType {
    CGA,
    EGA,
}

impl ImageType {
    /// Number of palette slots an index of this image type can address.
    pub open spec fn spec_palette_length(&self) -> usize {
        match self {
            ImageType::CGA => 4,
            ImageType::EGA => 16,
        }
    }

    /// Number of bits that encode one pixel.
    pub open spec fn spec_word_size(&self) -> usize {
        match self {
            ImageType::CGA => 2,
            ImageType::EGA => 4,
        }
    }

    /// Number of pixels held by one byte.
    pub open spec fn spec_words_per_byte(&self) -> usize {
        match self {
            ImageType::CGA => 4,
            ImageType::EGA => 2,
        }
    }

    /// Number of pixels held by `byte_count` bytes.
    pub open spec fn spec_pixel_count(&self, byte_count: nat) -> nat {
        byte_count * self.spec_words_per_byte() as nat
    }

    #[verifier::when_used_as_spec(spec_palette_length)]
    pub fn palette_length(&self) -> (n: usize)
        ensures
            n == self.spec_palette_length(),
    {
        match self {
            ImageType::CGA => 4,
            ImageType::EGA => 16,
        }
    }

    #[verifier::when_used_as_spec(spec_word_size)]
    pub fn word_size(&self) -> (n: usize)
        ensures
            n == self.spec_word_size(),
    {
        match self {
            ImageType::CGA => 2,
            ImageType::EGA => 4,
        }
    }

    #[verifier::when_used_as_spec(spec_words_per_byte)]
    pub fn words_per_byte(&self) -> (n: usize)
        ensures
            n == self.spec_words_per_byte(),
            n * self.spec_word_size() == 8,
    {
        8 / self.word_size()
    }

    /// The number of pixels that `byte_count` bytes hold, which must fit in
    /// `usize`.
    pub fn pixel_count(&self, byte_count: usize) -> (n: usize)
        requires
            self.spec_pixel_count(byte_count as nat) <= usize::MAX,
        ensures
            n == self.spec_pixel_count(byte_count as nat),
    {
        byte_count * self.words_per_byte()
    }

    /// Whether `byte_count` bytes hold exactly one screen of 320 by 200
    /// pixels.
    pub fn fullscreen(&self, byte_count: usize) -> (full: bool)
        ensures
            full == (self.spec_pixel_count(byte_count as nat) == FULLSCREEN_PIXELS),
    {
        match byte_count.checked_mul(self.words_per_byte()) {
            Some(pixels) => pixels == FULLSCREEN_PIXELS,
            None => false,
        }
    }

    /// The widths from 5 to 80 at which `byte_count` bytes fill whole rows,
    /// in rising order.
    pub fn widths(&self, byte_count: usize) -> (list: Vec<i64>)
        requires
            self.spec_pixel_count(byte_count as nat) <= usize::MAX,
            self.spec_pixel_count(byte_count as nat) <= i64::MAX,
        ensures
            is_divisor_list(list@, self.spec_pixel_count(byte_count as nat) as int, 5, 80),
    {
        Self::factors(self.pixel_count(byte_count), 80)
    }

    /// The tile heights from 5 to 50 that divide the number of rows which
    /// `byte_count` bytes fill at `width`, in rising order.
    pub fn heights(&self, byte_count: usize, width: usize) -> (list: Vec<i64>)
        requires
            width > 0,
            self.spec_pixel_count(byte_count as nat) <= usize::MAX,
            self.spec_pixel_count(byte_count as nat) <= i64::MAX,
        ensures
            is_divisor_list(
                list@,
                (self.spec_pixel_count(byte_count as nat) / width as nat) as int,
                5,
                50,
            ),
    {
        Self::factors(self.pixel_count(byte_count) / width, 50)
    }

    /// The divisors of `num` from 5 to `upper` that are smaller than `num`,
    /// in rising order.
    pub fn factors(num: usize, upper: usize) -> (list: Vec<i64>)
        requires
            num <= i64::MAX,
            upper <= i64::MAX,
        ensures
            is_divisor_list(list@, num as int, 5, upper as int),
    {
        let all: Vec<i64> = proper_factors(num as i64);
        let limit: i64 = upper as i64;
        let mut list: Vec<i64> = Vec::new();
        let mut i: usize = 0;
        while i < all.len()
            invariant
                i <= all@.len(),
                limit == upper,
                is_divisor_list(all@, num as int, 2, num as int),
                forall|j: int| 0 <= j < list@.len() ==> divisor_in(list@[j] as int, num as int, 5, upper as int),
                forall|j: int, k: int| 0 <= j < k < list@.len() ==> list@[j] < list@[k],
                forall|j: int| 0 <= j < list@.len() && i < all@.len() ==> list@[j] < all@[i as int],
                forall|j: int|
                    0 <= j < i && divisor_in(all@[j] as int, num as int, 5, upper as int)
                        ==> list@.contains(#[trigger] all@[j]),
            decreases all@.len() - i,
        {
            let x: i64 = all[i];
            let ghost before = list@;
            if x > 4 && x <= limit {
                list.push(x);
                assert(list@[before.len() as int] == x);
            }
            proof {
                assert forall|j: int|
                    0 <= j < i + 1 && divisor_in(all@[j] as int, num as int, 5, upper as int)
                    implies list@.contains(#[trigger] all@[j]) by {
                    if j < i {
                        let at = choose|at: int| 0 <= at < before.len() && before[at] == all@[j];
                        assert(list@[at] == all@[j]);
                    }
                }
            }
            i += 1;
        }
        proof {
            assert forall|d: int| divisor_in(d, num as int, 5, upper as int) implies list@.contains(
                d as i64,
            ) by {
                assert(divisor_in(d, num as int, 2, num as int));
                assert(all@.contains(d as i64));
                let j = choose|j: int| 0 <= j < all@.len() && all@[j] == d as i64;
                assert(list@.contains(all@[j]));
            }
        }
        list
    }
}

/// The number of pixels of a full screen: 320 by 200.
pub const FULLSCREEN_PIXELS: usize = 64_000;

/// `d` divides `n`, is at least 2 and smaller than `n`, and lies between
/// `low` and `high`.
pub open spec fn divisor_in(d: int, n: int, low: int, high: int) -> bool {
    &&& 2 <= d < n
    &&& low <= d <= high
    &&& n % d == 0
}

/// `list` holds the divisors of `n` between `low` and `high` that are at
/// least 2 and smaller than `n`: each of them once, in rising order, and
/// nothing else.
pub open spec fn is_divisor_list(list: Seq<i64>, n: int, low: int, high: int) -> bool {
    &&& forall|i: int| 0 <= i < list.len() ==> divisor_in(#[trigger] list[i] as int, n, low, high)
    &&& forall|i: int, j: int| 0 <= i < j < list.len() ==> list[i] < list[j]
    &&& forall|d: int| #[trigger] divisor_in(d, n, low, high) ==> list.contains(d as i64)
}

/// The list that `is_divisor_list` describes.
pub open spec fn divisor_list(n: int, low: int, high: int) -> Seq<i64> {
    choose|list: Seq<i64>| is_divisor_list(list, n, low, high)
}

/// No two lists hold the same divisors in rising order.
pub proof fn lemma_divisor_list_unique(a: Seq<i64>, b: Seq<i64>, n: int, low: int, high: int)
    requires
        is_divisor_list(a, n, low, high),
        is_divisor_list(b, n, low, high),
    ensures
        a == b,
    decreases a.len(),
{
    if a.len() == 0 {
        if b.len() > 0 {
            assert(divisor_in(b[0] as int, n, low, high));
            assert(a.contains(b[0]));
        }
        assert(a =~= b);
    } else if b.len() == 0 {
        assert(divisor_in(a[0] as int, n, low, high));
        assert(b.contains(a[0]));
    } else {
        let top = a.last();
        assert(divisor_in(top as int, n, low, high));
        assert(divisor_in(b.last() as int, n, low, high));
        assert(b.contains(top));
        assert(a.contains(b.last()));
        assert(top == b.last());
        lemma_divisor_list_front(a, n, low, high);
        lemma_divisor_list_front(b, n, low, high);
        lemma_divisor_list_unique(a.drop_last(), b.drop_last(), n, low, top - 1);
        assert(a =~= a.drop_last().push(top));
        assert(b =~= b.drop_last().push(top));
    }
}

/// A list of divisors without its last one holds the divisors below that.
proof fn lemma_divisor_list_front(a: Seq<i64>, n: int, low: int, high: int)
    requires
        is_divisor_list(a, n, low, high),
        a.len() > 0,
    ensures
        is_divisor_list(a.drop_last(), n, low, a.last() - 1),
{
    let front = a.drop_last();
    let top = a.last();
    assert(divisor_in(top as int, n, low, high));
    assert forall|i: int| 0 <= i < front.len() implies divisor_in(
        #[trigger] front[i] as int,
        n,
        low,
        top - 1,
    ) by {
        assert(divisor_in(a[i] as int, n, low, high));
        assert(a[i] < a[a.len() - 1]);
    }
    assert forall|d: int| #[trigger] divisor_in(d, n, low, top - 1) implies front.contains(
        d as i64,
    ) by {
        assert(divisor_in(d, n, low, high));
        assert(a.contains(d as i64));
        let i = choose|i: int| 0 <= i < a.len() && a[i] == d as i64;
        assert(front[i] == d as i64);
    }
}

/// A list that holds the divisors in rising order is the list of them.
pub proof fn lemma_divisor_list(list: Seq<i64>, n: int, low: int, high: int)
    requires
        is_divisor_list(list, n, low, high),
    ensures
        list == divisor_list(n, low, high),
{
    lemma_divisor_list_unique(list, divisor_list(n, low, high), n, low, high);
}

/// The divisors of `n` other than 1 and `n`, from the `factor` crate: it
/// tries every number from 2 up to `n - 1` in turn and keeps those that
/// divide `n`, so they come in rising order. For `n` below 3 there is none.
#[verifier::external_body]
pub(crate) fn proper_factors(n: i64) -> (list: Vec<i64>)
    ensures
        is_divisor_list(list@, n as int, 2, n as int),
{
    factor::factor::factor(n)
}

} // verus!
