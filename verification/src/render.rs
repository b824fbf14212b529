//! Rendering the working directory as a compact path.
//!
//! Every segment between the first and the last is cut to its shortest
//! unique prefix, for which the directory that holds it has to be listed.
//! Listing is left to the caller. [`start`] and [`Renderer::resume`] run a
//! rendering step by step: each step ends the rendering or names the one
//! directory whose listing is needed next. [`render`] runs a whole rendering
//! over listings that were made beforehand.

use vstd::prelude::*;
use vstd::slice::slice_subrange;
use vstd::string::StringExecFns;
use crate::chain::{
    chain_of, framed, home_depth, lemma_joined_fails, lemma_joined_step, listing_at, joined,
    pieces, rendered, Chain,
};
use crate::error::{text_of, RenderError};
use crate::names::path_file_name_to_string;
use crate::position::{display_role, positions, DisplayRole, Position};
use crate::siblings::{shortest_unique_path_prefix, Listing};

verus! {

/// How far a rendering has come.
pub enum Progress {
    /// Segment `next` is to be abbreviated, and the directory that holds it
    /// is to be listed. `text` is what the segments before it gave.
    Await { chain: Chain, next: int, text: Seq<char> },
    /// All segments are done.
    Done(Seq<char>),
    /// A segment failed.
    Fail(RenderError),
}

/// Where a rendering of `chain` that has `text` for the segments before
/// `next` comes to a halt: it goes on over the segments that need no
/// listing, and stops before the first that needs one, at the end, or on a
/// failure.
pub open spec fn settled(chain: Chain, next: int, text: Seq<char>) -> Progress
    decreases chain.count() - next,
{
    if next >= chain.count() {
        Progress::Done(text)
    } else if chain.role(next) is AbbreviatedName {
        Progress::Await { chain, next, text }
    } else {
        match chain.plain_piece(next) {
            Ok(piece) => settled(chain, next + 1, text + piece),
            Err(error) => Progress::Fail(error),
        }
    }
}

/// Where a rendering that waits before segment `next` comes to a halt once
/// it is handed `listing`.
pub open spec fn resumed(chain: Chain, next: int, text: Seq<char>, listing: Listing) -> Progress {
    match chain.piece(next, listing) {
        Ok(piece) => settled(chain, next + 1, text + piece),
        Err(error) => Progress::Fail(error),
    }
}

/// The rendering of `chain` over the table `listings` has come as far as
/// `progress` says: the text so far is what the segments before the next one
/// give, and an end is the end that [`rendered`] states.
pub open spec fn on_track(progress: Progress, chain: Chain, listings: Seq<Listing>) -> bool {
    match progress {
        Progress::Await { chain: same, next, text } => {
            &&& same == chain
            &&& 0 <= next < chain.count()
            &&& chain.role(next) is AbbreviatedName
            &&& joined(pieces(chain, listings).take(next)) == Ok::<Seq<char>, RenderError>(text)
        },
        Progress::Done(text) => rendered(chain, listings) == Ok::<Seq<char>, RenderError>(text),
        Progress::Fail(error) => rendered(chain, listings) == Err::<Seq<char>, RenderError>(
            error,
        ),
    }
}

/// The number of segments that are still to come.
pub open spec fn remaining(progress: Progress) -> int {
    match progress {
        Progress::Await { chain, next, text } => chain.count() - next,
        _ => 0,
    }
}

/// A rendering that goes on from a text on track comes to a halt on track.
pub proof fn lemma_settled_on_track(
    chain: Chain,
    listings: Seq<Listing>,
    next: int,
    text: Seq<char>,
)
    requires
        chain.wf(),
        0 <= next <= chain.count(),
        joined(pieces(chain, listings).take(next)) == Ok::<Seq<char>, RenderError>(text),
    ensures
        on_track(settled(chain, next, text), chain, listings),
        remaining(settled(chain, next, text)) <= chain.count() - next,
    decreases chain.count() - next,
{
    let all = pieces(chain, listings);
    if next >= chain.count() {
        assert(all.take(next) =~= all);
    } else if !(chain.role(next) is AbbreviatedName) {
        lemma_joined_step(all, next);
        match chain.plain_piece(next) {
            Ok(piece) => {
                lemma_settled_on_track(chain, listings, next + 1, text + piece);
            },
            Err(error) => {
                lemma_joined_fails(all, next + 1, error);
            },
        }
    }
}

/// A rendering starts on track, whatever the table.
pub proof fn lemma_start_on_track(chain: Chain, listings: Seq<Listing>)
    requires
        chain.wf(),
    ensures
        on_track(settled(chain, 0, Seq::empty()), chain, listings),
{
    lemma_settled_on_track(chain, listings, 0, Seq::empty());
}

/// A rendering on track that is resumed with the listing that the table
/// holds for the directory it waits for stays on track, and has fewer
/// segments to come. So a rendering that is handed the listings of one table
/// ends, and ends as [`rendered`] states for that table.
pub proof fn lemma_resumed_on_track(
    chain: Chain,
    listings: Seq<Listing>,
    next: int,
    text: Seq<char>,
)
    requires
        chain.wf(),
        on_track(Progress::Await { chain, next, text }, chain, listings),
    ensures
        on_track(
            resumed(chain, next, text, listing_at(listings, chain.base() + next - 1)),
            chain,
            listings,
        ),
        remaining(resumed(chain, next, text, listing_at(listings, chain.base() + next - 1)))
            < chain.count() - next,
{
    let all = pieces(chain, listings);
    let listing = listing_at(listings, chain.base() + next - 1);
    lemma_joined_step(all, next);
    match chain.piece(next, listing) {
        Ok(piece) => {
            lemma_settled_on_track(chain, listings, next + 1, text + piece);
        },
        Err(error) => {
            lemma_joined_fails(all, next + 1, error);
        },
    }
}

/// A rendering that waits for the listing of one directory.
pub struct Renderer<'a> {
    cwd: &'a [Vec<u8>],
    anchor: Option<usize>,
    places: Vec<Position>,
    next: usize,
    text: String,
}

/// A step of a rendering: what it needs next, or how it ended.
pub enum Step<'a> {
    /// The directory at [`Renderer::depth`] is to be listed, and the
    /// rendering resumed with the listing.
    Await(Renderer<'a>),
    /// The finished text.
    Done(String),
    /// The failure that ended the rendering.
    Fail(RenderError),
}

impl<'a> View for Step<'a> {
    type V = Progress;

    open spec fn view(&self) -> Progress {
        match *self {
            Step::Await(renderer) => Progress::Await {
                chain: renderer.chain(),
                next: renderer.next(),
                text: renderer.text(),
            },
            Step::Done(text) => Progress::Done(text@),
            Step::Fail(error) => Progress::Fail(error),
        }
    }
}

/// A depth, where there is one, as a mathematical integer.
pub open spec fn depth_view(depth: Option<usize>) -> Option<int> {
    match depth {
        Some(depth) => Some(depth as int),
        None => None,
    }
}

/// The chain of `cwd` that starts at the home directory at depth `anchor`,
/// or at the root.
spec fn chain_at(cwd: &[Vec<u8>], anchor: Option<usize>) -> Chain {
    Chain { path: cwd.deep_view(), anchor: depth_view(anchor) }
}

/// The places are those of the segments of `chain`.
spec fn places_fit(places: Seq<Position>, chain: Chain) -> bool {
    &&& places.len() == chain.count()
    &&& forall|i: int| 0 <= i < places.len() ==> #[trigger] places[i] == chain.position(i)
}

impl<'a> Renderer<'a> {
    #[verifier::type_invariant]
    spec fn waits(self) -> bool {
        &&& self.chain().wf()
        &&& places_fit(self.places@, self.chain())
        &&& self.next < self.chain().count()
        &&& self.chain().role(self.next as int) is AbbreviatedName
    }

    /// The chain that is rendered.
    pub closed spec fn chain(self) -> Chain {
        chain_at(self.cwd, self.anchor)
    }

    /// The segment for which the rendering waits.
    pub closed spec fn next(self) -> int {
        self.next as int
    }

    /// The text of the segments before it.
    pub closed spec fn text(self) -> Seq<char> {
        self.text@
    }

    /// The depth of the directory that is to be listed: the one that holds
    /// the segment for which the rendering waits.
    pub fn depth(&self) -> (depth: usize)
        ensures
            depth == self.chain().base() + self.next() - 1,
    {
        proof {
            use_type_invariant(self);
        }
        let base = match self.anchor {
            Some(depth) => depth,
            None => 0,
        };
        assert(1 <= base + self.next <= self.cwd.len());
        base + self.next - 1
    }

    /// Goes on with `listing`, which is what listing the directory at
    /// [`Renderer::depth`] gave.
    pub fn resume(self, listing: &Listing) -> (step: Step<'a>)
        ensures
            step@ == resumed(self.chain(), self.next(), self.text(), *listing),
    {
        proof {
            use_type_invariant(&self);
        }
        let Renderer { cwd, anchor, places, next, text } = self;
        let mut text = text;
        let base = match anchor {
            Some(depth) => depth,
            None => 0,
        };
        assert(base + next <= cwd.len() && next < places.len());
        let position = places[next];
        let path = slice_subrange(cwd, 0, base + next);
        match shortest_unique_path_prefix(path, listing) {
            Ok(name) => {
                let piece = frame(
                    position,
                    anchor.is_some(),
                    DisplayRole::AbbreviatedName,
                    name.as_str(),
                );
                text.append(piece.as_str());
                settle(cwd, anchor, places, next + 1, text)
            },
            Err(error) => Step::Fail(error),
        }
    }
}

/// Puts what stands for the name of a segment between its separators.
fn frame(position: Position, home_anchored: bool, role: DisplayRole, name: &str) -> (piece: String)
    ensures
        piece@ == framed(position, home_anchored, role, name@),
{
    proof {
        reveal_strlit("/");
    }
    let mut piece = String::new();
    if !home_anchored && (position == Position::First || position == Position::Only) {
        piece.append("/");
    }
    piece.append(name);
    if role != DisplayRole::RootAnchor && (position == Position::First || position
        == Position::Middle) {
        piece.append("/");
    }
    piece
}

/// Goes on from segment `from` until a listing is needed or the rendering
/// ends.
fn settle<'a>(
    cwd: &'a [Vec<u8>],
    anchor: Option<usize>,
    places: Vec<Position>,
    from: usize,
    so_far: String,
) -> (step: Step<'a>)
    requires
        chain_at(cwd, anchor).wf(),
        places_fit(places@, chain_at(cwd, anchor)),
        from <= places@.len(),
    ensures
        step@ == settled(chain_at(cwd, anchor), from as int, so_far@),
{
    let ghost chain = chain_at(cwd, anchor);
    let base = match anchor {
        Some(depth) => depth,
        None => 0,
    };
    let mut next = from;
    let mut text = so_far;
    while next < places.len()
        invariant
            chain == chain_at(cwd, anchor),
            chain.wf(),
            places_fit(places@, chain),
            base == chain.base(),
            next <= places@.len(),
            settled(chain, next as int, text@) == settled(chain, from as int, so_far@),
        decreases places@.len() - next,
    {
        assert(base + next <= cwd.len());
        let position = places[next];
        let role = display_role(position, anchor.is_some(), base + next > 0);
        let path = slice_subrange(cwd, 0, base + next);
        let name = match role {
            DisplayRole::AbbreviatedName => {
                return Step::Await(Renderer { cwd, anchor, places, next, text });
            },
            DisplayRole::RootAnchor => String::new(),
            DisplayRole::HomeAnchor => {
                proof {
                    reveal_strlit("~");
                }
                assert("~"@ =~= seq!['~']);
                "~".to_owned()
            },
            DisplayRole::FullName => match path_file_name_to_string(path) {
                Some(name) => name,
                None => {
                    return Step::Fail(RenderError::UndecodableName);
                },
            },
        };
        let piece = frame(position, anchor.is_some(), role, name.as_str());
        text.append(piece.as_str());
        next += 1;
    }
    Step::Done(text)
}

/// Where `home` stands among the ancestors of `cwd`: its depth, where it is
/// `cwd` or lies above it.
pub fn home_anchor(cwd: &[Vec<u8>], home: Option<&[Vec<u8>]>) -> (depth: Option<usize>)
    ensures
        depth_view(depth) == home_depth(cwd.deep_view(), home.deep_view()),
{
    match home {
        None => None,
        Some(names) => {
            let count = names.len();
            if count > cwd.len() {
                return None;
            }
            let mut i: usize = 0;
            while i < count
                invariant
                    home == Some(names),
                    i <= count == names@.len() <= cwd@.len(),
                    forall|j: int| 0 <= j < i ==> names.deep_view()[j] == cwd.deep_view()[j],
                decreases count - i,
            {
                if !same_bytes(names[i].as_slice(), cwd[i].as_slice()) {
                    assert(names.deep_view()[i as int] =~= names@[i as int]@);
                    assert(cwd.deep_view()[i as int] =~= cwd@[i as int]@);
                    assert(names.deep_view()[i as int] != cwd.deep_view().subrange(
                        0,
                        count as int,
                    )[i as int]);
                    return None;
                }
                i += 1;
            }
            Some(count)
        },
    }
}

/// Whether two raw names are the same.
fn same_bytes(a: &[u8], b: &[u8]) -> (same: bool)
    ensures
        same == (a@ == b@),
{
    if a.len() != b.len() {
        return false;
    }
    let mut i: usize = 0;
    while i < a.len()
        invariant
            i <= a@.len() == b@.len(),
            forall|j: int| 0 <= j < i ==> a@[j] == b@[j],
        decreases a@.len() - i,
    {
        if a[i] != b[i] {
            return false;
        }
        i += 1;
    }
    assert(a@ =~= b@);
    true
}

/// Starts to render the working directory `cwd` of a user whose home
/// directory is `home`, both given by their raw names from the root on.
///
/// The rendering goes as far as it can without a listing. The path has to be
/// short enough for its segments to be counted.
pub fn start<'a>(cwd: &'a [Vec<u8>], home: Option<&[Vec<u8>]>) -> (step: Step<'a>)
    requires
        cwd@.len() < usize::MAX,
    ensures
        step@ == settled(chain_of(cwd.deep_view(), home.deep_view()), 0, Seq::empty()),
{
    let anchor = home_anchor(cwd, home);
    let base = match anchor {
        Some(depth) => depth,
        None => 0,
    };
    let places = positions(cwd.len() + 1 - base);
    settle(cwd, anchor, places, 0, String::new())
}

/// Renders the working directory `cwd` of a user whose home directory is
/// `home`, over listings made beforehand: `listings[d]` is what listing the
/// ancestor of `cwd` at depth `d` gave, the root being at depth 0.
///
/// A listing is read only where a segment is abbreviated. One that
/// `listings` does not reach counts as unreadable.
pub fn render(cwd: &[Vec<u8>], home: Option<&[Vec<u8>]>, listings: &[Listing]) -> (text: Result<
    String,
    RenderError,
>)
    requires
        cwd@.len() < usize::MAX,
    ensures
        text_of(text) == rendered(chain_of(cwd.deep_view(), home.deep_view()), listings@),
{
    let ghost chain = chain_of(cwd.deep_view(), home.deep_view());
    let unreadable = Listing::Unreadable;
    let mut step = start(cwd, home);
    proof {
        lemma_start_on_track(chain, listings@);
    }
    loop
        invariant
            chain == chain_of(cwd.deep_view(), home.deep_view()),
            chain.wf(),
            unreadable is Unreadable,
            on_track(step@, chain, listings@),
        decreases remaining(step@),
    {
        match step {
            Step::Done(text) => {
                return Ok(text);
            },
            Step::Fail(error) => {
                return Err(error);
            },
            Step::Await(renderer) => {
                let depth = renderer.depth();
                let listing = if depth < listings.len() {
                    &listings[depth]
                } else {
                    &unreadable
                };
                proof {
                    lemma_resumed_on_track(chain, listings@, renderer.next(), renderer.text());
                }
                step = renderer.resume(listing);
            },
        }
    }
}

} // verus!
