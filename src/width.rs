use vstd::prelude::*;

verus! {

/// The thickness class of a border line, ordered `Empty < Light < Heavy < Block`.
#[derive(Clone, Copy, Debug, PartialEq, Eq, Structural)]
pub enum Width {
    Empty,
    Light,
    Heavy,
    Block,
}

impl Width {
    /// Position of the weight in the order `Empty < Light < Heavy < Block`.
    pub open spec fn rank(self) -> nat {
        match self {
            Width::Empty => 0,
            Width::Light => 1,
            Width::Heavy => 2,
            Width::Block => 3,
        }
    }

    /// The dominant of two weights: the larger one in the weight order.
    pub open spec fn join(self, other: Width) -> Width {
        if self.rank() >= other.rank() {
            self
        } else {
            other
        }
    }

    /// Combines two weights that meet on one line: the heavier one wins.
    pub fn combine(&self, other: &Width) -> (r: Width)
        ensures
            r == self.join(*other),
    {
        match (self, other) {
            (Width::Empty, Width::Empty) => Width::Empty,
            (Width::Empty, _) => *other,
            (_, Width::Empty) => *self,
            (Width::Light, _) => *other,
            (_, Width::Light) => *self,
            (Width::Heavy, _) => *other,
            (_, Width::Heavy) => *self,
            _ => *other,
        }
    }

    /// Numeric index of the weight, used to address the glyph table.
    pub fn index(&self) -> (r: usize)
        ensures
            r as nat == self.rank(),
    {
        match self {
            Width::Empty => 0,
            Width::Light => 1,
            Width::Heavy => 2,
            Width::Block => 3,
        }
    }

    /// The box-drawing character where lines of the four given weights meet.
    pub fn draw_char(top: &Width, left: &Width, bottom: &Width, right: &Width) -> (r: char)
        ensures
            r == glyph(*top, *left, *bottom, *right),
    {
        let key = ((right.index() * 4 + bottom.index()) * 4 + top.index()) * 4 + left.index();
        glyph_at(key)
    }
}

/// Key of a junction in the glyph table: the four weights as base-4 digits,
/// `right` the most significant and `left` the least.
pub open spec fn glyph_key(top: Width, left: Width, bottom: Width, right: Width) -> int {
    (((right.rank() * 4 + bottom.rank()) * 4 + top.rank()) * 4 + left.rank()) as int
}

/// The glyph table. Keys without a `Block` digit map to the standard light and
/// heavy box-drawing characters; every other key maps to the full block.
pub open spec fn glyph_table(key: int) -> char {
    if key == 0 {
        ' '
    } else if key == 1 {
        '╴'
    } else if key == 2 {
        '╸'
    } else if key == 4 {
        '╵'
    } else if key == 5 {
        '┘'
    } else if key == 6 {
        '┙'
    } else if key == 8 {
        '╹'
    } else if key == 9 {
        '┚'
    } else if key == 10 {
        '┛'
    } else if key == 16 {
        '╷'
    } else if key == 17 {
        '┐'
    } else if key == 18 {
        '┑'
    } else if key == 20 {
        '│'
    } else if key == 21 {
        '┤'
    } else if key == 22 {
        '┥'
    } else if key == 24 {
        '╿'
    } else if key == 25 {
        '┦'
    } else if key == 26 {
        '┩'
    } else if key == 32 {
        '╻'
    } else if key == 33 {
        '┒'
    } else if key == 34 {
        '┓'
    } else if key == 36 {
        '╽'
    } else if key == 37 {
        '┧'
    } else if key == 38 {
        '┪'
    } else if key == 40 {
        '┃'
    } else if key == 41 {
        '┨'
    } else if key == 42 {
        '┫'
    } else if key == 64 {
        '╶'
    } else if key == 65 {
        '─'
    } else if key == 66 {
        '╾'
    } else if key == 68 {
        '└'
    } else if key == 69 {
        '┴'
    } else if key == 70 {
        '┵'
    } else if key == 72 {
        '┖'
    } else if key == 73 {
        '┸'
    } else if key == 74 {
        '┹'
    } else if key == 80 {
        '┌'
    } else if key == 81 {
        '┬'
    } else if key == 82 {
        '┭'
    } else if key == 84 {
        '├'
    } else if key == 85 {
        '┼'
    } else if key == 86 {
        '┽'
    } else if key == 88 {
        '┞'
    } else if key == 89 {
        '╀'
    } else if key == 90 {
        '╃'
    } else if key == 96 {
        '┎'
    } else if key == 97 {
        '┰'
    } else if key == 98 {
        '┱'
    } else if key == 100 {
        '┟'
    } else if key == 101 {
        '╁'
    } else if key == 102 {
        '╅'
    } else if key == 104 {
        '┠'
    } else if key == 105 {
        '╂'
    } else if key == 106 {
        '╉'
    } else if key == 128 {
        '╺'
    } else if key == 129 {
        '╼'
    } else if key == 130 {
        '━'
    } else if key == 132 {
        '┕'
    } else if key == 133 {
        '┶'
    } else if key == 134 {
        '┷'
    } else if key == 136 {
        '┗'
    } else if key == 137 {
        '┺'
    } else if key == 138 {
        '┻'
    } else if key == 144 {
        '┍'
    } else if key == 145 {
        '┮'
    } else if key == 146 {
        '┯'
    } else if key == 148 {
        '┝'
    } else if key == 149 {
        '┾'
    } else if key == 150 {
        '┿'
    } else if key == 152 {
        '┡'
    } else if key == 153 {
        '╄'
    } else if key == 154 {
        '╇'
    } else if key == 160 {
        '┏'
    } else if key == 161 {
        '┲'
    } else if key == 162 {
        '┳'
    } else if key == 164 {
        '┢'
    } else if key == 165 {
        '╆'
    } else if key == 166 {
        '╈'
    } else if key == 168 {
        '┣'
    } else if key == 169 {
        '╊'
    } else if key == 170 {
        '╋'
    } else {
        '█'
    }
}

/// The character drawn where lines of weights `top`, `left`, `bottom` and
/// `right` meet in one point.
pub open spec fn glyph(top: Width, left: Width, bottom: Width, right: Width) -> char {
    glyph_table(glyph_key(top, left, bottom, right))
}

fn glyph_at(key: usize) -> (r: char)
    ensures
        r == glyph_table(key as int),
{
    match key {
            0 => ' ',
            1 => '╴',
            2 => '╸',
            4 => '╵',
            5 => '┘',
            6 => '┙',
            8 => '╹',
            9 => '┚',
            10 => '┛',
            16 => '╷',
            17 => '┐',
            18 => '┑',
            20 => '│',
            21 => '┤',
            22 => '┥',
            24 => '╿',
            25 => '┦',
            26 => '┩',
            32 => '╻',
            33 => '┒',
            34 => '┓',
            36 => '╽',
            37 => '┧',
            38 => '┪',
            40 => '┃',
            41 => '┨',
            42 => '┫',
            64 => '╶',
            65 => '─',
            66 => '╾',
            68 => '└',
            69 => '┴',
            70 => '┵',
            72 => '┖',
            73 => '┸',
            74 => '┹',
            80 => '┌',
            81 => '┬',
            82 => '┭',
            84 => '├',
            85 => '┼',
            86 => '┽',
            88 => '┞',
            89 => '╀',
            90 => '╃',
            96 => '┎',
            97 => '┰',
            98 => '┱',
            100 => '┟',
            101 => '╁',
            102 => '╅',
            104 => '┠',
            105 => '╂',
            106 => '╉',
            128 => '╺',
            129 => '╼',
            130 => '━',
            132 => '┕',
            133 => '┶',
            134 => '┷',
            136 => '┗',
            137 => '┺',
            138 => '┻',
            144 => '┍',
            145 => '┮',
            146 => '┯',
            148 => '┝',
            149 => '┾',
            150 => '┿',
            152 => '┡',
            153 => '╄',
            154 => '╇',
            160 => '┏',
            161 => '┲',
            162 => '┳',
            164 => '┢',
            165 => '╆',
            166 => '╈',
            168 => '┣',
            169 => '╊',
            170 => '╋',
        _ => '█',
    }
}

/// Combining weights is commutative, associative and idempotent, and `Empty`
/// is its identity.
pub proof fn lemma_combine_laws(x: Width, y: Width, z: Width)
    ensures
        x.join(y) == y.join(x),
        x.join(y.join(z)) == x.join(y).join(z),
        x.join(x) == x,
        x.join(Width::Empty) == x,
        Width::Empty.join(x) == x,
{
}

/// A junction touched by a `Block` line is drawn as a full block, and a point
/// that no line touches is drawn as a space.
pub proof fn lemma_glyph_block_and_blank(top: Width, left: Width, bottom: Width, right: Width)
    ensures
        (top == Width::Block || left == Width::Block || bottom == Width::Block || right == Width::Block)
            ==> glyph(top, left, bottom, right) == '█',
        glyph(Width::Empty, Width::Empty, Width::Empty, Width::Empty) == ' ',
{
}

} // verus!
