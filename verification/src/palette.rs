//! The fixed palette of source colours and the table that hands them out.

use vstd::prelude::*;

verus! {

/// Number of colours in the palette.
pub const PALETTE_SIZE: usize = 10;

/// A colour that can be assigned to a log source. Red and yellow are not
/// part of the palette: they are reserved for severity highlighting.
#[derive(Clone, Copy, Debug, PartialEq, Eq, Structural)]
pub enum PaletteColor {
    Green,
    Blue,
    Magenta,
    Cyan,
    BrightRed,
    BrightGreen,
    BrightYellow,
    BrightBlue,
    BrightMagenta,
    BrightCyan,
}

/// The palette colour at position `rank`, counted from zero.
pub open spec fn palette_color(rank: int) -> PaletteColor {
    if rank <= 0 {
        PaletteColor::Green
    } else if rank == 1 {
        PaletteColor::Blue
    } else if rank == 2 {
        PaletteColor::Magenta
    } else if rank == 3 {
        PaletteColor::Cyan
    } else if rank == 4 {
        PaletteColor::BrightRed
    } else if rank == 5 {
        PaletteColor::BrightGreen
    } else if rank == 6 {
        PaletteColor::BrightYellow
    } else if rank == 7 {
        PaletteColor::BrightBlue
    } else if rank == 8 {
        PaletteColor::BrightMagenta
    } else {
        PaletteColor::BrightCyan
    }
}

impl PaletteColor {
    /// The position of this colour in the palette, counted from zero.
    pub open spec fn rank(self) -> int {
        match self {
            PaletteColor::Green => 0,
            PaletteColor::Blue => 1,
            PaletteColor::Magenta => 2,
            PaletteColor::Cyan => 3,
            PaletteColor::BrightRed => 4,
            PaletteColor::BrightGreen => 5,
            PaletteColor::BrightYellow => 6,
            PaletteColor::BrightBlue => 7,
            PaletteColor::BrightMagenta => 8,
            PaletteColor::BrightCyan => 9,
        }
    }

    /// The name under which terminals and colouring libraries know this
    /// colour.
    pub open spec fn name_text(self) -> Seq<char> {
        match self {
            PaletteColor::Green => "green"@,
            PaletteColor::Blue => "blue"@,
            PaletteColor::Magenta => "magenta"@,
            PaletteColor::Cyan => "cyan"@,
            PaletteColor::BrightRed => "bright red"@,
            PaletteColor::BrightGreen => "bright green"@,
            PaletteColor::BrightYellow => "bright yellow"@,
            PaletteColor::BrightBlue => "bright blue"@,
            PaletteColor::BrightMagenta => "bright magenta"@,
            PaletteColor::BrightCyan => "bright cyan"@,
        }
    }

    /// The palette colour at position `rank`, if the palette is that long.
    pub fn nth(rank: usize) -> (color: Option<PaletteColor>)
        ensures
            rank < PALETTE_SIZE ==> color == Some(palette_color(rank as int)),
            rank >= PALETTE_SIZE ==> color is None,
    {
        if rank == 0 {
            Some(PaletteColor::Green)
        } else if rank == 1 {
            Some(PaletteColor::Blue)
        } else if rank == 2 {
            Some(PaletteColor::Magenta)
        } else if rank == 3 {
            Some(PaletteColor::Cyan)
        } else if rank == 4 {
            Some(PaletteColor::BrightRed)
        } else if rank == 5 {
            Some(PaletteColor::BrightGreen)
        } else if rank == 6 {
            Some(PaletteColor::BrightYellow)
        } else if rank == 7 {
            Some(PaletteColor::BrightBlue)
        } else if rank == 8 {
            Some(PaletteColor::BrightMagenta)
        } else if rank == 9 {
            Some(PaletteColor::BrightCyan)
        } else {
            None
        }
    }

    /// The name of this colour.
    pub fn name(&self) -> (name: &'static str)
        ensures
            name@ == self.name_text(),
    {
        match self {
            PaletteColor::Green => "green",
            PaletteColor::Blue => "blue",
            PaletteColor::Magenta => "magenta",
            PaletteColor::Cyan => "cyan",
            PaletteColor::BrightRed => "bright red",
            PaletteColor::BrightGreen => "bright green",
            PaletteColor::BrightYellow => "bright yellow",
            PaletteColor::BrightBlue => "bright blue",
            PaletteColor::BrightMagenta => "bright magenta",
            PaletteColor::BrightCyan => "bright cyan",
        }
    }
}

/// Every palette position names its own colour.
pub proof fn lemma_palette_injective(a: int, b: int)
    requires
        0 <= a < PALETTE_SIZE,
        0 <= b < PALETTE_SIZE,
        a != b,
    ensures
        palette_color(a) != palette_color(b),
        palette_color(a).rank() == a,
{
}

/// The palette is exhausted: more distinct colouring keys were presented
/// than there are colours.
#[derive(Clone, Copy, Debug, PartialEq, Eq)]
pub struct PaletteExhausted;

/// Whether `key` is one of `keys`.
pub open spec fn knows(keys: Seq<Seq<char>>, key: Seq<char>) -> bool {
    exists|i: int| 0 <= i < keys.len() && keys[i] == key
}

/// A position at which `key` stands in `keys`.
pub open spec fn position_of(keys: Seq<Seq<char>>, key: Seq<char>) -> int {
    choose|i: int| 0 <= i < keys.len() && keys[i] == key
}

/// The colour that a table with the keys `keys`, in order of their first
/// appearance, has assigned to `key`.
pub open spec fn color_among(keys: Seq<Seq<char>>, key: Seq<char>) -> Option<PaletteColor> {
    if knows(keys, key) {
        Some(palette_color(position_of(keys, key)))
    } else {
        None
    }
}

/// The keys of a well-formed table are pairwise distinct, and there are no
/// more of them than palette colours.
pub open spec fn table_well_formed(keys: Seq<Seq<char>>) -> bool {
    &&& keys.len() <= PALETTE_SIZE
    &&& forall|i: int, j: int| 0 <= i < j < keys.len() ==> keys[i] != keys[j]
}

/// Within one table, two distinct keys never hold the same colour.
pub proof fn lemma_distinct_keys_distinct_colors(
    keys: Seq<Seq<char>>,
    first: Seq<char>,
    second: Seq<char>,
)
    requires
        table_well_formed(keys),
        knows(keys, first),
        knows(keys, second),
        first != second,
    ensures
        color_among(keys, first) != color_among(keys, second),
{
    let a = position_of(keys, first);
    let b = position_of(keys, second);
    lemma_palette_injective(a, b);
}

/// The colour assignment table: each distinct colouring key, in the order in
/// which the keys were first presented. The key at position `i` holds the
/// palette colour at position `i`, for the rest of the run.
pub struct ColorAllocator {
    keys: Vec<String>,
}

impl ColorAllocator {
    /// The keys that hold a colour, in order of assignment.
    pub closed spec fn keys(&self) -> Seq<Seq<char>> {
        self.keys@.map_values(|key: String| key@)
    }

    /// The table's invariant.
    pub open spec fn well_formed(&self) -> bool {
        table_well_formed(self.keys())
    }

    /// The colour assigned to `key`, if it has one.
    pub open spec fn assigned(&self, key: Seq<char>) -> Option<PaletteColor> {
        color_among(self.keys(), key)
    }

    /// A table without assignments.
    pub fn new() -> (table: ColorAllocator)
        ensures
            table.well_formed(),
            table.keys() == Seq::<Seq<char>>::empty(),
    {
        let table = ColorAllocator { keys: Vec::new() };
        assert(table.keys() =~= Seq::<Seq<char>>::empty());
        table
    }

    /// Number of keys that hold a colour.
    pub fn len(&self) -> (count: usize)
        ensures
            count == self.keys().len(),
    {
        self.keys.len()
    }

    /// The colour that `key` holds, if any.
    pub fn lookup(&self, key: &str) -> (color: Option<PaletteColor>)
        requires
            self.well_formed(),
        ensures
            color == self.assigned(key@),
    {
        let wanted = key.to_owned();
        let mut i: usize = 0;
        while i < self.keys.len()
            invariant
                i <= self.keys.len(),
                self.well_formed(),
                wanted@ == key@,
                forall|j: int| 0 <= j < i ==> self.keys()[j] != key@,
            decreases self.keys.len() - i,
        {
            if self.keys[i] == wanted {
                assert(self.keys()[i as int] == key@);
                return PaletteColor::nth(i);
            }
            i += 1;
        }
        None
    }

    /// The colour for `key`: the one it already holds, or else the next
    /// unused palette colour, which the key then holds from now on. When the
    /// key is new and every palette colour is taken, the table is left as it
    /// was and the exhaustion is reported.
    pub fn color_for(&mut self, key: &str) -> (color: Result<PaletteColor, PaletteExhausted>)
        requires
            old(self).well_formed(),
        ensures
            final(self).well_formed(),
            old(self).assigned(key@) is Some ==> color == Ok::<PaletteColor, PaletteExhausted>(
                old(self).assigned(key@)->0,
            ) && final(self).keys() == old(self).keys(),
            old(self).assigned(key@) is None && old(self).keys().len() < PALETTE_SIZE ==> color
                == Ok::<PaletteColor, PaletteExhausted>(
                palette_color(old(self).keys().len() as int),
            ) && final(self).keys() == old(self).keys().push(key@),
            old(self).assigned(key@) is None && old(self).keys().len() >= PALETTE_SIZE ==> color
                is Err && final(self).keys() == old(self).keys(),
            color matches Ok(given) ==> final(self).assigned(key@) == Some(given),
    {
        match self.lookup(key) {
            Some(held) => Ok(held),
            None => {
                match PaletteColor::nth(self.keys.len()) {
                    Some(fresh) => {
                        let ghost before = self.keys();
                        self.keys.push(key.to_owned());
                        assert(self.keys() =~= before.push(key@));
                        assert(self.keys()[before.len() as int] == key@);
                        Ok(fresh)
                    },
                    None => Err(PaletteExhausted),
                }
            },
        }
    }
}

} // verus!
