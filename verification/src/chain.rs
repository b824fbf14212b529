//! What a rendering is: the chain of segments that is shown, what each of
//! them adds to the text, and the text as a whole.
//!
//! A path is the list of the raw names that lead from the root to it. The
//! chain that is shown for a working directory runs from an anchor down to
//! the working directory itself. The anchor is the home directory where the
//! working directory is the home directory or lies in it, and the root of
//! the file system otherwise.

use vstd::prelude::*;
use crate::error::RenderError;
use crate::names::{file_name_text, name_text};
use crate::position::{position_of, role_of, DisplayRole, Position};
use crate::siblings::{abbreviated, Listing};

verus! {

/// The depth of `home` among the ancestors of `cwd`: the number of its
/// names, where `home` is `cwd` or lies above it.
pub open spec fn home_depth(cwd: Seq<Seq<u8>>, home: Option<Seq<Seq<u8>>>) -> Option<int> {
    match home {
        Some(names) => if names.is_prefix_of(cwd) {
            Some(names.len() as int)
        } else {
            None
        },
        None => None,
    }
}

/// The chain that is shown: the ancestors of `path`, itself included, from
/// the home directory at depth `anchor` on, or from the root where there is
/// no such anchor.
pub struct Chain {
    pub path: Seq<Seq<u8>>,
    pub anchor: Option<int>,
}

/// The chain that is shown for the working directory `cwd` of a user whose
/// home directory is `home`.
pub open spec fn chain_of(cwd: Seq<Seq<u8>>, home: Option<Seq<Seq<u8>>>) -> Chain {
    Chain { path: cwd, anchor: home_depth(cwd, home) }
}

impl Chain {
    /// The depth of the first segment.
    pub open spec fn base(self) -> int {
        match self.anchor {
            Some(depth) => depth,
            None => 0,
        }
    }

    /// Whether the chain starts at the home directory.
    pub open spec fn anchored(self) -> bool {
        self.anchor is Some
    }

    /// The first segment is the path or lies above it.
    pub open spec fn wf(self) -> bool {
        0 <= self.base() <= self.path.len()
    }

    /// The number of segments, the first one included.
    pub open spec fn count(self) -> int {
        self.path.len() + 1 - self.base()
    }

    /// The place of segment `index`.
    pub open spec fn position(self, index: int) -> Position {
        position_of(index, self.count())
    }

    /// The path of segment `index`.
    pub open spec fn segment(self, index: int) -> Seq<Seq<u8>> {
        self.path.take(self.base() + index)
    }

    /// The role of segment `index`. Only the root has no parent.
    pub open spec fn role(self, index: int) -> DisplayRole {
        role_of(self.position(index), self.anchored(), self.base() + index > 0)
    }

    /// What segment `index` adds to the text, where `listing` is what
    /// listing the directory that holds it gave. Only an abbreviated segment
    /// reads `listing`.
    pub open spec fn piece(self, index: int, listing: Listing) -> Result<Seq<char>, RenderError> {
        match shown(self.role(index), self.segment(index), listing) {
            Ok(name) => Ok(framed(self.position(index), self.anchored(), self.role(index), name)),
            Err(error) => Err(error),
        }
    }

    /// What segment `index` adds to the text, for one that is not
    /// abbreviated.
    pub open spec fn plain_piece(self, index: int) -> Result<Seq<char>, RenderError> {
        match unabridged(self.role(index), self.segment(index)) {
            Ok(name) => Ok(framed(self.position(index), self.anchored(), self.role(index), name)),
            Err(error) => Err(error),
        }
    }
}

/// What stands for the name of a segment that is not abbreviated: nothing
/// for the root, `~` for the home anchor, and the name as text otherwise.
pub open spec fn unabridged(role: DisplayRole, path: Seq<Seq<u8>>) -> Result<
    Seq<char>,
    RenderError,
> {
    match role {
        DisplayRole::RootAnchor => Ok(Seq::empty()),
        DisplayRole::HomeAnchor => Ok(seq!['~']),
        _ => match file_name_text(path) {
            Some(name) => Ok(name),
            None => Err(RenderError::UndecodableName),
        },
    }
}

/// What stands for the name of the segment at `path`, where `listing` is
/// what listing the directory that holds it gave.
pub open spec fn shown(role: DisplayRole, path: Seq<Seq<u8>>, listing: Listing) -> Result<
    Seq<char>,
    RenderError,
> {
    if role is AbbreviatedName {
        abbreviated(path, listing)
    } else {
        unabridged(role, path)
    }
}

/// A separator goes before the first segment of a chain that starts at the
/// root.
pub open spec fn leads(position: Position, home_anchored: bool) -> bool {
    !home_anchored && (position is First || position is Only)
}

/// A separator goes after every segment but the last. The root has none of
/// its own: the separator before it stands for it.
pub open spec fn trails(position: Position, role: DisplayRole) -> bool {
    !(role is RootAnchor) && (position is First || position is Middle)
}

/// What stands for the name of a segment, between its separators.
pub open spec fn framed(
    position: Position,
    home_anchored: bool,
    role: DisplayRole,
    name: Seq<char>,
) -> Seq<char> {
    (if leads(position, home_anchored) {
        seq!['/']
    } else {
        Seq::empty()
    }) + name + (if trails(position, role) {
        seq!['/']
    } else {
        Seq::empty()
    })
}

/// The pieces put together in their order. The first failure among them is
/// the failure of the whole.
pub open spec fn joined(pieces: Seq<Result<Seq<char>, RenderError>>) -> Result<
    Seq<char>,
    RenderError,
>
    decreases pieces.len(),
{
    if pieces.len() == 0 {
        Ok(Seq::empty())
    } else {
        match joined(pieces.drop_last()) {
            Ok(text) => match pieces.last() {
                Ok(piece) => Ok(text + piece),
                Err(error) => Err(error),
            },
            Err(error) => Err(error),
        }
    }
}

/// The listing of the directory at `depth` in a table that holds one listing
/// for each depth, from the root on. A directory that the table does not
/// reach counts as unreadable.
pub open spec fn listing_at(listings: Seq<Listing>, depth: int) -> Listing {
    if 0 <= depth < listings.len() {
        listings[depth]
    } else {
        Listing::Unreadable
    }
}

/// The pieces of the chain, each segment with the listing of the directory
/// that holds it.
pub open spec fn pieces(chain: Chain, listings: Seq<Listing>) -> Seq<Result<Seq<char>, RenderError>> {
    Seq::new(
        chain.count() as nat,
        |index: int| chain.piece(index, listing_at(listings, chain.base() + index - 1)),
    )
}

/// The text for the chain, or the first failure on the way.
pub open spec fn rendered(chain: Chain, listings: Seq<Listing>) -> Result<Seq<char>, RenderError> {
    joined(pieces(chain, listings))
}

/// Joining one piece more goes on from what the pieces before it gave.
pub proof fn lemma_joined_step(all: Seq<Result<Seq<char>, RenderError>>, k: int)
    requires
        0 <= k < all.len(),
    ensures
        joined(all.take(k + 1)) == match joined(all.take(k)) {
            Ok(text) => match all[k] {
                Ok(piece) => Ok(text + piece),
                Err(error) => Err(error),
            },
            Err(error) => Err(error),
        },
{
    assert(all.take(k + 1).drop_last() =~= all.take(k));
}

/// A failure among the first pieces is the failure of the whole.
pub proof fn lemma_joined_fails(
    all: Seq<Result<Seq<char>, RenderError>>,
    k: int,
    error: RenderError,
)
    requires
        0 <= k <= all.len(),
        joined(all.take(k)) == Err::<Seq<char>, RenderError>(error),
    ensures
        joined(all) == Err::<Seq<char>, RenderError>(error),
    decreases all.len() - k,
{
    if k < all.len() {
        lemma_joined_step(all, k);
        lemma_joined_fails(all, k + 1, error);
    } else {
        assert(all.take(k) =~= all);
    }
}

/// The pieces join to a text exactly where none of them fails.
pub proof fn lemma_joined_ok(all: Seq<Result<Seq<char>, RenderError>>)
    ensures
        joined(all) is Ok <==> forall|k: int| 0 <= k < all.len() ==> (#[trigger] all[k]) is Ok,
    decreases all.len(),
{
    if all.len() > 0 {
        lemma_joined_ok(all.drop_last());
        if joined(all) is Ok {
            assert forall|k: int| 0 <= k < all.len() implies (#[trigger] all[k]) is Ok by {
                if k < all.len() - 1 {
                    assert(all.drop_last()[k] == all[k]);
                }
            }
        } else if joined(all.drop_last()) is Err {
            let k = choose|k: int|
                0 <= k < all.len() - 1 && !((#[trigger] all.drop_last()[k]) is Ok);
        }
    }
}

/// The failure of the first piece that fails is the failure of the whole.
pub proof fn lemma_first_failure(
    all: Seq<Result<Seq<char>, RenderError>>,
    k: int,
    error: RenderError,
)
    requires
        0 <= k < all.len(),
        all[k] == Err::<Seq<char>, RenderError>(error),
        forall|j: int| 0 <= j < k ==> (#[trigger] all[j]) is Ok,
    ensures
        joined(all) == Err::<Seq<char>, RenderError>(error),
{
    lemma_joined_ok(all.take(k));
    lemma_joined_step(all, k);
    lemma_joined_fails(all, k + 1, error);
}

/// The home directory itself is rendered as `~`, whatever the listings.
pub proof fn lemma_home_is_tilde(home: Seq<Seq<u8>>, listings: Seq<Listing>)
    ensures
        rendered(chain_of(home, Some(home)), listings) == Ok::<Seq<char>, RenderError>(seq!['~']),
{
    let chain = chain_of(home, Some(home));
    let all = pieces(chain, listings);
    assert(joined(all.drop_last()) == Ok::<Seq<char>, RenderError>(Seq::empty()));
    assert(Seq::<char>::empty() + (Seq::<char>::empty() + seq!['~'] + Seq::<char>::empty())
        =~= seq!['~']);
}

/// A directory right below the home directory is rendered as `~`, a
/// separator and its name in full, whatever the listings. It fails where its
/// name is not text.
pub proof fn lemma_child_of_home(home: Seq<Seq<u8>>, name: Seq<u8>, listings: Seq<Listing>)
    ensures
        rendered(chain_of(home.push(name), Some(home)), listings) == match name_text(name) {
            Some(text) => Ok::<Seq<char>, RenderError>(seq!['~', '/'] + text),
            None => Err::<Seq<char>, RenderError>(RenderError::UndecodableName),
        },
{
    let cwd = home.push(name);
    let chain = chain_of(cwd, Some(home));
    let all = pieces(chain, listings);
    let head = Seq::<char>::empty() + seq!['~'] + seq!['/'];
    lemma_joined_step(all, 0);
    lemma_joined_step(all, 1);
    match name_text(name) {
        Some(text) => {
            assert((Seq::<char>::empty() + head) + (Seq::<char>::empty() + text + Seq::<
                char,
            >::empty()) =~= seq!['~', '/'] + text);
        },
        None => {},
    }
}

/// The root is rendered as a lone separator, whatever the listings, unless
/// it is the home directory.
pub proof fn lemma_root_is_separator(home: Option<Seq<Seq<u8>>>, listings: Seq<Listing>)
    requires
        home != Some(Seq::<Seq<u8>>::empty()),
    ensures
        rendered(chain_of(Seq::empty(), home), listings) == Ok::<Seq<char>, RenderError>(seq!['/']),
{
    let root = Seq::<Seq<u8>>::empty();
    let chain = chain_of(root, home);
    match home {
        Some(names) => {
            if names.is_prefix_of(root) {
                assert(names =~= root);
            }
        },
        None => {},
    }
    let all = pieces(chain, listings);
    assert(joined(all.drop_last()) == Ok::<Seq<char>, RenderError>(Seq::empty()));
    assert(Seq::<char>::empty() + (seq!['/'] + Seq::<char>::empty() + Seq::<char>::empty())
        =~= seq!['/']);
}

/// Only the directories from the first segment down to the parent of the
/// working directory are ever listed: two tables that agree on them give the
/// same rendering.
pub proof fn lemma_reads_from_anchor_to_parent(chain: Chain, a: Seq<Listing>, b: Seq<Listing>)
    requires
        chain.wf(),
        forall|depth: int|
            chain.base() <= depth < chain.path.len() - 1 ==> listing_at(a, depth) == listing_at(
                b,
                depth,
            ),
    ensures
        rendered(chain, a) == rendered(chain, b),
{
    assert(pieces(chain, a) =~= pieces(chain, b));
}

} // verus!
