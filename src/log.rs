//! The message log and the colours attached to its messages.

use vstd::prelude::*;

verus! {

/// Number of messages the log keeps; older ones are dropped first.
pub const MSG_HEIGHT: usize = 6;

/// The named colours the simulation attaches to entities and messages.
#[derive(Clone, Copy, Debug, PartialEq, Eq, Structural)]
pub enum Color {
    White,
    Red,
    DarkRed,
    Orange,
    DarkerOrange,
    Yellow,
    LightYellow,
    Green,
    LightGreen,
    DesaturatedGreen,
    DarkerGreen,
    LightBlue,
    LightCyan,
    Sky,
    Violet,
    LightViolet,
}

/// The message log: text with a colour, oldest first.
pub struct Messages {
    pub entries: Vec<(String, Color)>,
}

/// The log `log` after `text` was added in `color`.
pub open spec fn log_add(log: Seq<(Seq<char>, Color)>, text: Seq<char>, color: Color) -> Seq<
    (Seq<char>, Color),
> {
    if log.len() >= MSG_HEIGHT {
        log.drop_first().push((text, color))
    } else {
        log.push((text, color))
    }
}

impl View for Messages {
    type V = Seq<(Seq<char>, Color)>;

    open spec fn view(&self) -> Seq<(Seq<char>, Color)> {
        self.entries@.map_values(|e: (String, Color)| (e.0@, e.1))
    }
}

impl Messages {
    /// An empty log.
    pub fn new() -> (r: Messages)
        ensures
            r@ == Seq::<(Seq<char>, Color)>::empty(),
    {
        let r = Messages { entries: Vec::new() };
        assert(r@ =~= Seq::<(Seq<char>, Color)>::empty());
        r
    }

    /// Appends a message, dropping the oldest one when the log is full.
    pub fn add(&mut self, text: String, color: Color)
        ensures
            final(self)@ == log_add(old(self)@, text@, color),
    {
        if self.entries.len() >= MSG_HEIGHT {
            self.entries.remove(0);
        }
        self.entries.push((text, color));
        proof {
            assert(final(self)@ =~= log_add(old(self)@, text@, color));
        }
    }
}

pub open spec fn digit_char(d: nat) -> char {
    seq!['0', '1', '2', '3', '4', '5', '6', '7', '8', '9'][d as int]
}

/// The decimal digits of `n`.
pub open spec fn digits_of(n: nat) -> Seq<char>
    decreases n,
{
    if n < 10 {
        seq![digit_char(n)]
    } else {
        digits_of(n / 10).push(digit_char(n % 10))
    }
}

/// `n` written in decimal, with a leading `-` when negative.
pub open spec fn decimal_text(n: int) -> Seq<char> {
    if n < 0 {
        seq!['-'] + digits_of((-n) as nat)
    } else {
        digits_of(n as nat)
    }
}

/// The digit `d` as text.
fn digit_text(d: u32) -> (r: &'static str)
    requires
        d < 10,
    ensures
        r@ == seq![digit_char(d as nat)],
{
    match d {
        0 => {
            proof {
                reveal_strlit("0");
            }
            "0"
        },
        1 => {
            proof {
                reveal_strlit("1");
            }
            "1"
        },
        2 => {
            proof {
                reveal_strlit("2");
            }
            "2"
        },
        3 => {
            proof {
                reveal_strlit("3");
            }
            "3"
        },
        4 => {
            proof {
                reveal_strlit("4");
            }
            "4"
        },
        5 => {
            proof {
                reveal_strlit("5");
            }
            "5"
        },
        6 => {
            proof {
                reveal_strlit("6");
            }
            "6"
        },
        7 => {
            proof {
                reveal_strlit("7");
            }
            "7"
        },
        8 => {
            proof {
                reveal_strlit("8");
            }
            "8"
        },
        9 => {
            proof {
                reveal_strlit("9");
            }
            "9"
        },
        _ => {
            proof {
                reveal_strlit("9");
            }
            "9"
        },
    }
}

/// The decimal digits of `n`.
fn digits_text(n: u32) -> (r: String)
    ensures
        r@ == digits_of(n as nat),
    decreases n,
{
    if n < 10 {
        String::from_str(digit_text(n))
    } else {
        let mut s = digits_text(n / 10);
        s.append(digit_text(n % 10));
        assert(s@ =~= digits_of((n / 10) as nat).push(digit_char((n % 10) as nat)));
        s
    }
}

/// `n` written in decimal, with a leading `-` when negative.
pub fn int_text(n: i32) -> (r: String)
    ensures
        r@ == decimal_text(n as int),
{
    if n < 0 {
        let m = (-(n as i64)) as u32;
        let digits = digits_text(m);
        proof {
            reveal_strlit("-");
        }
        let r = String::from_str("-").concat(digits.as_str());
        assert(r@ =~= seq!['-'] + digits_of((-n) as nat));
        r
    } else {
        digits_text(n as u32)
    }
}

} // verus!
