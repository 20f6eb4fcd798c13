//! The shape of a random text: entries of a dictionary and a symbol among them.

use vstd::prelude::*;
use crate::bindings::uniform_between;

verus! {

/// One place of a random text.
#[derive(Clone, Copy, Debug, PartialEq, Eq, Structural)]
pub enum Slot {
    /// The entry of the dictionary at this place.
    Entry(usize),
    /// The symbol at this place of the list of symbols.
    Symbol(usize),
}

/// Where a symbol goes into a random text: `symbol` is its place in the
/// list of symbols, and it stands before the entry that is number `at`
/// when the entries are counted from one.
#[derive(Clone, Copy, Debug, PartialEq, Eq, Structural)]
pub struct Insertion {
    pub at: u32,
    pub symbol: usize,
}

/// The entries of `picks`, one place each.
pub open spec fn entries(picks: Seq<usize>) -> Seq<Slot> {
    Seq::new(picks.len(), |i: int| Slot::Entry(picks[i]))
}

/// The places of a random text: the picked entries in their order, with
/// the symbol, where there is one, before the entry that its number names.
pub open spec fn laid_out(picks: Seq<usize>, insertion: Option<Insertion>) -> Seq<Slot> {
    match insertion {
        Some(insertion) if 1 <= insertion.at <= picks.len() => entries(picks).insert(
            insertion.at - 1,
            Slot::Symbol(insertion.symbol),
        ),
        _ => entries(picks),
    }
}

/// Draws the shape of a random text: the number of its entries, between
/// `min` and `max`, and, where there are symbols to choose from, one of
/// them and the entry before which it stands, which is never the first.
pub fn draw_shape(rng: &mut rand::rngs::StdRng, min: u32, max: u32, symbols: Option<usize>) -> (r:
    (u32, Option<Insertion>))
    requires
        min <= max,
        symbols matches Some(count) ==> count >= 1 && min >= 2,
    ensures
        min <= r.0 <= max,
        r.1 is Some <==> symbols is Some,
        r.1 matches Some(insertion) ==> 2 <= insertion.at <= r.0 && insertion.symbol
            < symbols->Some_0,
{
    let num = uniform_between(rng, min as u64, max as u64) as u32;
    match symbols {
        Some(count) => {
            let at = uniform_between(rng, 2, num as u64) as u32;
            let symbol = uniform_between(rng, 0, (count - 1) as u64) as usize;
            (num, Some(Insertion { at, symbol }))
        },
        None => (num, None),
    }
}

/// Lays a random text out: the picked entries in their order, with the
/// symbol, where there is one, before the entry that its number names.
pub fn lay_out(picks: &Vec<usize>, insertion: Option<Insertion>) -> (out: Vec<Slot>)
    ensures
        out@ == laid_out(picks@, insertion),
{
    let mut out: Vec<Slot> = Vec::new();
    let mut done: bool = false;
    let mut i: usize = 0;
    while i < picks.len()
        invariant
            i <= picks@.len(),
            done == (insertion matches Some(insertion) && 1 <= insertion.at <= i),
            out@ == laid_out(picks@.take(i as int), insertion),
        decreases picks@.len() - i,
    {
        let ghost before = out@;
        proof {
            assert(picks@.take(i + 1) =~= picks@.take(i as int).push(picks@[i as int]));
            assert(entries(picks@.take(i + 1)) =~= entries(picks@.take(i as int)).push(
                Slot::Entry(picks@[i as int]),
            ));
        }
        match insertion {
            Some(insertion) => {
                if insertion.at as u64 == i as u64 + 1 {
                    out.push(Slot::Symbol(insertion.symbol));
                    done = true;
                }
            },
            None => {},
        }
        out.push(Slot::Entry(picks[i]));
        proof {
            assert(out@ =~= laid_out(picks@.take(i + 1), insertion));
        }
        i = i + 1;
    }
    proof {
        assert(picks@.take(picks@.len() as int) =~= picks@);
    }
    out
}

} // verus!
