//! `aube sponsors`.

use vstd::prelude::*;

verus! {

/// The arguments of `aube sponsors`: none.
#[derive(Debug)]
pub struct SponsorsArgs {}

/// What `aube sponsors` prints.
pub const SPONSORS: &'static str = "aube and the en.dev project family are sponsored by:\n\n  37signals - https://37signals.com\n\nView all sponsors: https://en.dev/sponsors.html";

/// The message of `aube sponsors`.
pub fn run(_args: SponsorsArgs) -> (r: &'static str)
    ensures
        r@ == SPONSORS@,
{
    SPONSORS
}

} // verus!
