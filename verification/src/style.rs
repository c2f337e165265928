//! Terminal styles (SGR escape sequences) used by the renderer.
use vstd::prelude::*;

verus! {

/// The escape sequences the viewer emits.
#[derive(Clone, Copy, Debug, PartialEq, Eq, Structural)]
pub enum Style {
    Reset,
    Dim,
    Bold,
    Cyan,
    Blue,
    Green,
    Yellow,
    Magenta,
}

/// `ESC [ n m` for the parameter characters `n`.
pub open spec fn sgr(n: Seq<char>) -> Seq<char> {
    seq!['\x1b', '['] + n + seq!['m']
}

impl Style {
    /// The escape sequence of the style.
    pub open spec fn code(self) -> Seq<char> {
        match self {
            Style::Reset => sgr(seq!['0']),
            Style::Dim => sgr(seq!['2']),
            Style::Bold => sgr(seq!['1']),
            Style::Cyan => sgr(seq!['3', '6']),
            Style::Blue => sgr(seq!['3', '4']),
            Style::Green => sgr(seq!['3', '2']),
            Style::Yellow => sgr(seq!['3', '3']),
            Style::Magenta => sgr(seq!['3', '5']),
        }
    }

    /// The escape sequence of the style, as text.
    pub fn as_str(self) -> (r: &'static str)
        ensures
            r@ == self.code(),
    {
        match self {
            Style::Reset => {
                proof {
                    reveal_strlit("\x1b[0m");
                }
                let r = "\x1b[0m";
                assert(r@ =~= self.code());
                r
            },
            Style::Dim => {
                proof {
                    reveal_strlit("\x1b[2m");
                }
                let r = "\x1b[2m";
                assert(r@ =~= self.code());
                r
            },
            Style::Bold => {
                proof {
                    reveal_strlit("\x1b[1m");
                }
                let r = "\x1b[1m";
                assert(r@ =~= self.code());
                r
            },
            Style::Cyan => {
                proof {
                    reveal_strlit("\x1b[36m");
                }
                let r = "\x1b[36m";
                assert(r@ =~= self.code());
                r
            },
            Style::Blue => {
                proof {
                    reveal_strlit("\x1b[34m");
                }
                let r = "\x1b[34m";
                assert(r@ =~= self.code());
                r
            },
            Style::Green => {
                proof {
                    reveal_strlit("\x1b[32m");
                }
                let r = "\x1b[32m";
                assert(r@ =~= self.code());
                r
            },
            Style::Yellow => {
                proof {
                    reveal_strlit("\x1b[33m");
                }
                let r = "\x1b[33m";
                assert(r@ =~= self.code());
                r
            },
            Style::Magenta => {
                proof {
                    reveal_strlit("\x1b[35m");
                }
                let r = "\x1b[35m";
                assert(r@ =~= self.code());
                r
            },
        }
    }
}

} // verus!
