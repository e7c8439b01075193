//! Stars of the background.

use vstd::prelude::*;

verus! {

/// Spectral class of a star, from the hottest to the coolest.
#[derive(Clone, Copy, PartialEq, Eq, Structural, Debug)]
pub enum SpectralClass {
    O,
    B,
    A,
    F,
    G,
    K,
    M,
}

impl SpectralClass {
    /// Red, green and blue of the class, in hundredths.
    pub open spec fn color(self) -> (u32, u32, u32) {
        match self {
            SpectralClass::O => (60, 70, 100),
            SpectralClass::B => (70, 80, 100),
            SpectralClass::A => (90, 92, 100),
            SpectralClass::F => (100, 98, 90),
            SpectralClass::G => (100, 95, 70),
            SpectralClass::K => (100, 80, 50),
            SpectralClass::M => (100, 60, 40),
        }
    }

    /// Red, green and blue of the class, in hundredths.
    pub fn to_color(&self) -> (r: (u32, u32, u32))
        ensures
            r == self.color(),
    {
        match self {
            SpectralClass::O => (60, 70, 100),
            SpectralClass::B => (70, 80, 100),
            SpectralClass::A => (90, 92, 100),
            SpectralClass::F => (100, 98, 90),
            SpectralClass::G => (100, 95, 70),
            SpectralClass::K => (100, 80, 50),
            SpectralClass::M => (100, 60, 40),
        }
    }
}

/// Colors are normalized: the strongest part of each is full and none exceeds it.
pub proof fn lemma_colors_are_normalized(class: SpectralClass)
    ensures
        class.color().0 <= 100 && class.color().1 <= 100 && class.color().2 <= 100,
        class.color().0 == 100 || class.color().2 == 100,
{
}

/// Whether the stars are to be seen: they are switched on, and the view is in
/// perspective.
pub fn stars_visible(show_stars: bool, perspective: bool) -> (r: bool)
    ensures
        r == (show_stars && perspective),
{
    show_stars && perspective
}

/// How hot a class is: the hottest has the least number.
pub open spec fn coolness(class: SpectralClass) -> int {
    match class {
        SpectralClass::O => 0,
        SpectralClass::B => 1,
        SpectralClass::A => 2,
        SpectralClass::F => 3,
        SpectralClass::G => 4,
        SpectralClass::K => 5,
        SpectralClass::M => 6,
    }
}

/// A cooler star is no less red and no more blue than a hotter one, and redder or
/// less blue: blue is full down to the class A, and red from the class F on.
pub proof fn lemma_cooler_stars_are_redder(hot: SpectralClass, cool: SpectralClass)
    requires
        coolness(hot) < coolness(cool),
    ensures
        hot.color().0 <= cool.color().0,
        hot.color().2 >= cool.color().2,
        hot.color().0 < cool.color().0 || hot.color().2 > cool.color().2,
        hot.color().2 == 100 <==> coolness(hot) <= 2,
        cool.color().0 == 100 <==> coolness(cool) >= 3,
{
}

} // verus!
