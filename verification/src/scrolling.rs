use vstd::prelude::*;
use vstd::string::StringExecFns;

use crate::error::Error;
use crate::imports::spec_get;
use crate::tree::{model_wf, TreeModel, TreeValue};

verus! {

/// Maximum scrollback amount configurable.
pub const MAX_SCROLLBACK_LINES: u32 = 100_000;

/// Default value for `auto_scroll`.
pub fn default_true() -> (r: bool)
    ensures
        r,
{
    true
}

/// Struct for scrolling related settings.
#[derive(Copy, Clone, Debug, PartialEq, Eq, Structural)]
pub struct Scrolling {
    pub multiplier: u8,
    pub auto_scroll: bool,
    history: ScrollingHistory,
}

#[derive(Copy, Clone, Debug, PartialEq, Eq, Structural)]
struct ScrollingHistory(u32);

impl Scrolling {
    /// The validated scrollback line count.
    pub closed spec fn history_spec(self) -> u32 {
        self.history.0
    }

    /// The lines scrolled per wheel tick.
    pub closed spec fn multiplier_spec(self) -> u8 {
        self.multiplier
    }

    /// Whether the viewport follows new output.
    pub closed spec fn auto_scroll_spec(self) -> bool {
        self.auto_scroll
    }

    /// The bound that validation enforces on the scrollback line count.
    pub open spec fn wf(self) -> bool {
        self.history_spec() <= MAX_SCROLLBACK_LINES
    }

    pub fn history(self) -> (r: u32)
        ensures
            r == self.history_spec(),
    {
        self.history.0
    }

    /// Replace the lines scrolled per wheel tick.
    pub fn set_multiplier(&mut self, m: u8)
        ensures
            final(self).multiplier_spec() == m,
            final(self).auto_scroll_spec() == old(self).auto_scroll_spec(),
            final(self).history_spec() == old(self).history_spec(),
    {
        self.multiplier = m;
    }

    /// Replace the auto-scroll choice.
    pub fn set_auto_scroll(&mut self, a: bool)
        ensures
            final(self).auto_scroll_spec() == a,
            final(self).multiplier_spec() == old(self).multiplier_spec(),
            final(self).history_spec() == old(self).history_spec(),
    {
        self.auto_scroll = a;
    }

    /// The settings with an explicit, already-bounded line count.
    pub fn with_history(multiplier: u8, auto_scroll: bool, history: u32) -> (r: Scrolling)
        requires
            history <= MAX_SCROLLBACK_LINES,
        ensures
            r.multiplier_spec() == multiplier,
            r.auto_scroll_spec() == auto_scroll,
            r.history_spec() == history,
            r.wf(),
    {
        Scrolling { multiplier, auto_scroll, history: ScrollingHistory(history) }
    }
}

impl Default for Scrolling {
    /// Three lines per wheel tick, auto-scroll on, ten thousand lines kept.
    fn default() -> (r: Self)
        ensures
            r.multiplier_spec() == 3,
            r.auto_scroll_spec(),
            r.history_spec() == 10_000,
            r.wf(),
    {
        Self { multiplier: 3, auto_scroll: true, history: ScrollingHistory(10_000) }
    }
}

/// The decimal digit `d` as a character.
pub open spec fn spec_digit(d: nat) -> char {
    if d == 0 {
        '0'
    } else if d == 1 {
        '1'
    } else if d == 2 {
        '2'
    } else if d == 3 {
        '3'
    } else if d == 4 {
        '4'
    } else if d == 5 {
        '5'
    } else if d == 6 {
        '6'
    } else if d == 7 {
        '7'
    } else if d == 8 {
        '8'
    } else {
        '9'
    }
}

/// The decimal writing of `n`, most significant digit first.
pub open spec fn spec_decimal(n: nat) -> Seq<char>
    decreases n,
{
    if n < 10 {
        seq![spec_digit(n)]
    } else {
        spec_decimal(n / 10) + seq![spec_digit(n % 10)]
    }
}

fn digit_str(d: u64) -> (r: &'static str)
    requires
        d < 10,
    ensures
        r@ == seq![spec_digit(d as nat)],
{
    proof {
        reveal_strlit("0");
        reveal_strlit("1");
        reveal_strlit("2");
        reveal_strlit("3");
        reveal_strlit("4");
        reveal_strlit("5");
        reveal_strlit("6");
        reveal_strlit("7");
        reveal_strlit("8");
        reveal_strlit("9");
    }
    let r = match d {
        0 => "0",
        1 => "1",
        2 => "2",
        3 => "3",
        4 => "4",
        5 => "5",
        6 => "6",
        7 => "7",
        8 => "8",
        _ => "9",
    };
    proof {
        assert(r@ =~= seq![spec_digit(d as nat)]);
    }
    r
}

/// The decimal writing of `n`.
pub fn decimal_string(n: u64) -> (r: String)
    ensures
        r@ == spec_decimal(n as nat),
    decreases n,
{
    if n < 10 {
        String::from_str(digit_str(n))
    } else {
        let r = decimal_string(n / 10).concat(digit_str(n % 10));
        proof {
            assert(r@ =~= spec_decimal(n as nat));
        }
        r
    }
}

/// The scroll multiplier a document asks for: absent means the default;
/// anything but an integer between 0 and 255 is a fault.
pub open spec fn spec_multiplier_of(doc: TreeModel) -> Result<u8, ()> {
    match spec_get(doc, "scrolling"@) {
        None => Ok(3u8),
        Some(v) => {
            if !(v is Table) {
                Err(())
            } else {
                match spec_get(v, "multiplier"@) {
                    None => Ok(3u8),
                    Some(TreeModel::Integer(i)) => if 0 <= i <= 255 {
                        Ok(i as u8)
                    } else {
                        Err(())
                    },
                    Some(_) => Err(()),
                }
            }
        },
    }
}

/// The auto-scroll choice a document asks for: absent means on.
pub open spec fn spec_auto_scroll_of(doc: TreeModel) -> Result<bool, ()> {
    match spec_get(doc, "scrolling"@) {
        None => Ok(true),
        Some(v) => {
            if !(v is Table) {
                Err(())
            } else {
                match spec_get(v, "auto_scroll"@) {
                    None => Ok(true),
                    Some(TreeModel::Bool(b)) => Ok(b),
                    Some(_) => Err(()),
                }
            }
        },
    }
}

/// The scrollback line count a document asks for: absent means the default;
/// a value over the hard ceiling is rejected, never clamped.
pub open spec fn spec_history_of(doc: TreeModel) -> Result<u32, ()> {
    match spec_get(doc, "scrolling"@) {
        None => Ok(10_000u32),
        Some(v) => {
            if !(v is Table) {
                Err(())
            } else {
                match spec_get(v, "history"@) {
                    None => Ok(10_000u32),
                    Some(TreeModel::Integer(i)) => if 0 <= i <= MAX_SCROLLBACK_LINES {
                        Ok(i as u32)
                    } else {
                        Err(())
                    },
                    Some(_) => Err(()),
                }
            }
        },
    }
}

/// Whether typed validation of the document fails.
pub open spec fn validation_fails(doc: TreeModel) -> bool {
    spec_multiplier_of(doc) is Err || spec_auto_scroll_of(doc) is Err || spec_history_of(doc)
        is Err
}

/// What the scrolling settings validated from the document look like.
pub open spec fn validates_to(doc: TreeModel, s: Scrolling) -> bool {
    &&& spec_multiplier_of(doc) matches Ok(m) && s.multiplier_spec() == m
    &&& spec_auto_scroll_of(doc) matches Ok(a) && s.auto_scroll_spec() == a
    &&& spec_history_of(doc) matches Ok(h) && s.history_spec() == h
}

/// Validate the scrolling settings of a merged document: absent fields take
/// their defaults; a wrong type or a history over the ceiling fails with a
/// message naming the field.
pub fn scrolling_from_tree(doc: &TreeValue) -> (r: Result<Scrolling, Error>)
    requires
        model_wf(doc@),
    ensures
        r is Ok <==> !validation_fails(doc@),
        r matches Ok(s) ==> validates_to(doc@, s) && s.wf(),
        r matches Err(e) ==> (e matches Error::Validation(_)),
{
    let section = match crate::imports::get_key(doc, "scrolling") {
        None => {
            return Ok(Scrolling::default());
        },
        Some(v) => v,
    };
    let entries = match section {
        TreeValue::Table(_) => section,
        _ => {
            return Err(
                Error::Validation(String::from_str("scrolling: expected a table")),
            );
        },
    };
    let multiplier: u8 = match crate::imports::get_key(entries, "multiplier") {
        None => 3,
        Some(TreeValue::Integer(i)) => {
            if 0 <= *i && *i <= 255 {
                *i as u8
            } else {
                return Err(
                    Error::Validation(
                        String::from_str("scrolling.multiplier: integer out of range"),
                    ),
                );
            }
        },
        Some(_) => {
            return Err(
                Error::Validation(
                    String::from_str("scrolling.multiplier: expected an integer"),
                ),
            );
        },
    };
    let auto_scroll: bool = match crate::imports::get_key(entries, "auto_scroll") {
        None => true,
        Some(TreeValue::Bool(b)) => *b,
        Some(_) => {
            return Err(
                Error::Validation(
                    String::from_str("scrolling.auto_scroll: expected a boolean"),
                ),
            );
        },
    };
    let history: u32 = match crate::imports::get_key(entries, "history") {
        None => 10_000,
        Some(TreeValue::Integer(i)) => {
            if 0 <= *i && *i <= MAX_SCROLLBACK_LINES as i64 {
                *i as u32
            } else if *i > MAX_SCROLLBACK_LINES as i64 {
                let msg = String::from_str("exceeded maximum scrolling history (").concat(
                    decimal_string(*i as u64).as_str(),
                ).concat("/").concat(decimal_string(MAX_SCROLLBACK_LINES as u64).as_str()).concat(
                    ")",
                );
                return Err(Error::Validation(msg));
            } else {
                return Err(
                    Error::Validation(
                        String::from_str("scrolling.history: expected a non-negative integer"),
                    ),
                );
            }
        },
        Some(_) => {
            return Err(
                Error::Validation(String::from_str("scrolling.history: expected an integer")),
            );
        },
    };
    Ok(Scrolling::with_history(multiplier, auto_scroll, history))
}

} // verus!
