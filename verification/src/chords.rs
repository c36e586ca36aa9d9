//! The closed set of chord qualities a constellation can select, and their
//! semitone intervals from the root.

use vstd::prelude::*;

verus! {

/// How many chord qualities there are to choose from.
pub const CHORD_COUNT: u64 = 13;

/// A chord quality rooted at C.
#[derive(Clone, Copy, Debug, PartialEq, Eq, Structural, Default)]
pub enum Chord {
    #[default]
    Cmaj,
    Cmin,
    Caug,
    C7,
    Cmaj7,
    Cmin7,
    Chalfdim7,
    CminMaj7,
    C9,
    Cmaj9,
    Cmin9,
    C11,
    C13,
}

impl Chord {
    /// The semitone offsets of this chord's notes from the root.
    pub open spec fn spec_intervals(self) -> Seq<u8> {
        match self {
            Chord::Cmaj => seq![0u8, 4u8, 7u8],
            Chord::Cmin => seq![0u8, 3u8, 7u8],
            Chord::Caug => seq![0u8, 4u8, 8u8],
            Chord::C7 => seq![0u8, 4u8, 7u8, 10u8],
            Chord::Cmaj7 => seq![0u8, 4u8, 7u8, 11u8],
            Chord::Cmin7 => seq![0u8, 3u8, 7u8, 10u8],
            Chord::Chalfdim7 => seq![0u8, 3u8, 6u8, 10u8],
            Chord::CminMaj7 => seq![0u8, 3u8, 7u8, 11u8],
            Chord::C9 => seq![0u8, 4u8, 7u8, 10u8, 14u8],
            Chord::Cmaj9 => seq![0u8, 4u8, 7u8, 11u8, 14u8],
            Chord::Cmin9 => seq![0u8, 3u8, 7u8, 10u8, 14u8],
            Chord::C11 => seq![0u8, 4u8, 7u8, 10u8, 14u8, 17u8],
            Chord::C13 => seq![0u8, 4u8, 7u8, 10u8, 14u8, 17u8, 21u8],
        }
    }

    /// The semitone offsets of this chord's notes from the root.
    pub fn as_intervals(&self) -> (r: Vec<u8>)
        ensures
            r@ == self.spec_intervals(),
    {
        let r: Vec<u8> = match self {
            Chord::Cmaj => vec![0, 4, 7],
            Chord::Cmin => vec![0, 3, 7],
            Chord::Caug => vec![0, 4, 8],
            Chord::C7 => vec![0, 4, 7, 10],
            Chord::Cmaj7 => vec![0, 4, 7, 11],
            Chord::Cmin7 => vec![0, 3, 7, 10],
            Chord::Chalfdim7 => vec![0, 3, 6, 10],
            Chord::CminMaj7 => vec![0, 3, 7, 11],
            Chord::C9 => vec![0, 4, 7, 10, 14],
            Chord::Cmaj9 => vec![0, 4, 7, 11, 14],
            Chord::Cmin9 => vec![0, 3, 7, 10, 14],
            Chord::C11 => vec![0, 4, 7, 10, 14, 17],
            Chord::C13 => vec![0, 4, 7, 10, 14, 17, 21],
        };
        proof {
            assert(r@ =~= self.spec_intervals());
        }
        r
    }

    /// The chord with the given position in the fixed choice order.
    pub open spec fn spec_from_index(i: int) -> Chord {
        if i == 0 {
            Chord::Cmaj
        } else if i == 1 {
            Chord::Cmin
        } else if i == 2 {
            Chord::Caug
        } else if i == 3 {
            Chord::C7
        } else if i == 4 {
            Chord::Cmaj7
        } else if i == 5 {
            Chord::Cmin7
        } else if i == 6 {
            Chord::Chalfdim7
        } else if i == 7 {
            Chord::CminMaj7
        } else if i == 8 {
            Chord::C9
        } else if i == 9 {
            Chord::Cmaj9
        } else if i == 10 {
            Chord::Cmin9
        } else if i == 11 {
            Chord::C11
        } else {
            Chord::C13
        }
    }

    /// Pick the chord with the given position in the fixed choice order.
    pub fn from_index(i: u64) -> (c: Chord)
        requires
            i < CHORD_COUNT,
        ensures
            c == Chord::spec_from_index(i as int),
    {
        if i == 0 {
            Chord::Cmaj
        } else if i == 1 {
            Chord::Cmin
        } else if i == 2 {
            Chord::Caug
        } else if i == 3 {
            Chord::C7
        } else if i == 4 {
            Chord::Cmaj7
        } else if i == 5 {
            Chord::Cmin7
        } else if i == 6 {
            Chord::Chalfdim7
        } else if i == 7 {
            Chord::CminMaj7
        } else if i == 8 {
            Chord::C9
        } else if i == 9 {
            Chord::Cmaj9
        } else if i == 10 {
            Chord::Cmin9
        } else if i == 11 {
            Chord::C11
        } else {
            Chord::C13
        }
    }
}

} // verus!
