//! Session identity as the router sees it: the authenticated identity
//! behind a connection, if any, the layout flag pages render with, and the
//! pending flash messages.
//!
//! Cookie mechanics and persistence of sessions live in the surrounding
//! process; it builds a `Session` from the resolved cookie and hands it to
//! the handlers.  A connection upgrade without an identity must fail, which
//! is exactly what [`Session::get_user_id`] decides.

use vstd::prelude::*;
use crate::error::Error;
use crate::message::UserId;
use crate::user::Flash;
use crate::user::flash_text;

verus! {

/// Flags the page chrome renders with.
#[derive(Clone, Copy, PartialEq, Eq, Structural, Debug)]
pub struct Layout {
    pub signed_in: bool,
}

/// The ghost images of a list of flash strings.
pub open spec fn string_views(ss: Seq<String>) -> Seq<Seq<char>> {
    ss.map_values(|s: String| s@)
}

/// The texts of a list of flashes.
pub open spec fn flash_texts(fs: Seq<Flash>) -> Seq<Seq<char>> {
    fs.map_values(|f: Flash| flash_text(f))
}

/// One resolved session: identity (absent for anonymous visitors), layout,
/// and the flash messages accumulated for the next page.
pub struct Session {
    pub layout: Layout,
    pub user_id: Option<UserId>,
    pub flashes: Vec<String>,
}

impl Session {
    /// The authenticated identity, or `Unauthorized` when the session has
    /// none; an adapter is only constructed when this succeeds.
    pub fn get_user_id(&self) -> (r: Result<UserId, Error>)
        ensures
            match self.user_id {
                Some(id) => r == Ok::<UserId, Error>(id),
                None => r == Err::<UserId, Error>(Error::Unauthorized),
            },
    {
        match self.user_id {
            Some(id) => Ok(id),
            None => Err(Error::Unauthorized),
        }
    }

    /// The layout flags for rendering.
    pub fn get_layout(&self) -> (r: Layout)
        ensures
            r == self.layout,
    {
        self.layout
    }

    /// Keeps a validation result's value and turns its flashes into
    /// pending messages: `Ok` passes through untouched, `Err` appends the
    /// text of every flash in order and yields nothing.
    pub fn add_flashes<T>(&mut self, result: Result<T, Vec<Flash>>) -> (r: Option<T>)
        ensures
            final(self).layout == old(self).layout,
            final(self).user_id == old(self).user_id,
            match result {
                Ok(t) => r == Some(t) && final(self).flashes@ == old(self).flashes@,
                Err(flashes) => r is None && string_views(final(self).flashes@) == string_views(
                    old(self).flashes@,
                ) + flash_texts(flashes@),
            },
    {
        match result {
            Ok(t) => Some(t),
            Err(flashes) => {
                let ghost pre = string_views(self.flashes@);
                let mut i: usize = 0;
                proof {
                    assert(flash_texts(flashes@.take(0)) =~= Seq::<Seq<char>>::empty());
                    assert(string_views(self.flashes@) =~= pre + flash_texts(flashes@.take(0)));
                }
                while i < flashes.len()
                    invariant
                        i <= flashes@.len(),
                        self.layout == old(self).layout,
                        self.user_id == old(self).user_id,
                        string_views(self.flashes@) == pre + flash_texts(flashes@.take(i as int)),
                    decreases flashes@.len() - i,
                {
                    let text = flashes[i].message();
                    let ghost prev = self.flashes@;
                    self.flashes.push(text);
                    proof {
                        assert(string_views(prev.push(text)) =~= string_views(prev).push(text@));
                        assert(flash_texts(flashes@.take(i + 1)) =~= flash_texts(
                            flashes@.take(i as int),
                        ).push(flash_text(flashes@[i as int])));
                        assert(string_views(self.flashes@) =~= pre + flash_texts(
                            flashes@.take(i + 1),
                        ));
                    }
                    i += 1;
                }
                proof {
                    assert(flashes@.take(flashes@.len() as int) =~= flashes@);
                }
                None
            },
        }
    }

    /// Takes the pending flash messages, leaving none behind.
    pub fn get_flashes(&mut self) -> (r: Vec<String>)
        ensures
            final(self).layout == old(self).layout,
            final(self).user_id == old(self).user_id,
            r@ == old(self).flashes@,
            final(self).flashes@.len() == 0,
    {
        let mut taken: Vec<String> = Vec::new();
        core::mem::swap(&mut taken, &mut self.flashes);
        taken
    }
}

} // verus!
