//! Blog post records and the author-scoped operations over them.
//!
//! Every post carries its author's id and two server-set timestamps.
//! Reads by id are public; update and delete touch a row only when both
//! the post id and the caller's id match, in one conditional operation,
//! so a caller cannot tell a missing post from another author's post.

use crate::decimal::{dec_str_of, parse_u128};
use crate::errors::ApiError;
use vstd::prelude::*;

verus! {

/// What a post-creation request carries. The client-supplied author id
/// is never trusted: the authenticated caller becomes the author.
pub struct CreateBlogPayload {
    pub title: String,
    pub content: String,
    pub author_id: u128,
}

/// What a post-update request carries.
pub struct UpdateBlogPayload {
    pub title: String,
    pub content: String,
}

/// The mathematical image of one post.
pub ghost struct BlogView {
    pub id: u128,
    pub title: Seq<char>,
    pub content: Seq<char>,
    pub author_id: u128,
    pub created_at: i64,
    pub updated_at: i64,
}

/// One stored post.
pub struct Blog {
    pub id: u128,
    pub title: String,
    pub content: String,
    pub author_id: u128,
    pub created_at: i64,
    pub updated_at: i64,
}

impl View for Blog {
    type V = BlogView;

    open spec fn view(&self) -> BlogView {
        BlogView {
            id: self.id,
            title: self.title@,
            content: self.content@,
            author_id: self.author_id,
            created_at: self.created_at,
            updated_at: self.updated_at,
        }
    }
}

/// Creation timestamps never decrease along the sequence.
pub open spec fn sorted_ascending(s: Seq<BlogView>) -> bool {
    forall|i: int, j: int|
        0 <= i < j < s.len() ==> (#[trigger] s[i]).created_at <= (#[trigger] s[j]).created_at
}

/// Creation timestamps never increase along the sequence.
pub open spec fn sorted_descending(s: Seq<BlogView>) -> bool {
    forall|i: int, j: int|
        0 <= i < j < s.len() ==> (#[trigger] s[i]).created_at >= (#[trigger] s[j]).created_at
}

/// The posts of one author, newest created first: the subsequence of `s`
/// with this author id, walked from the last stored post back to the
/// first.
pub open spec fn owned_desc(s: Seq<BlogView>, author: u128) -> Seq<BlogView>
    decreases s.len(),
{
    if s.len() == 0 {
        Seq::empty()
    } else if s.last().author_id == author {
        seq![s.last()] + owned_desc(s.drop_last(), author)
    } else {
        owned_desc(s.drop_last(), author)
    }
}

/// The post store: posts in creation order, ids handed out by a counter,
/// and a clock that bounds every timestamp, so a later operation never
/// writes an earlier time.
pub struct BlogStore {
    pub blogs: Vec<Blog>,
    pub next_id: u128,
    pub clock: i64,
}

impl BlogStore {
    /// The posts as a sequence of their mathematical images.
    pub open spec fn view(&self) -> Seq<BlogView> {
        self.blogs@.map_values(|b: Blog| b@)
    }

    /// Well-formedness: ids are distinct and below the counter, every
    /// post was updated no earlier than created and no later than the
    /// clock, and posts sit in creation order.
    pub open spec fn wf(&self) -> bool {
        &&& forall|i: int, j: int|
            0 <= i < j < self.view().len() ==> (#[trigger] self.view()[i]).id
                != (#[trigger] self.view()[j]).id
        &&& forall|i: int|
            0 <= i < self.view().len() ==> (#[trigger] self.view()[i]).id < self.next_id
        &&& forall|i: int|
            0 <= i < self.view().len() ==> (#[trigger] self.view()[i]).created_at
                <= self.view()[i].updated_at && self.view()[i].updated_at <= self.clock
        &&& sorted_ascending(self.view())
    }

    /// An empty store whose clock starts at `epoch`.
    pub fn new(epoch: i64) -> (s: Self)
        ensures
            s.wf(),
            s.view() =~= Seq::<BlogView>::empty(),
            s.next_id == 0,
            s.clock == epoch,
    {
        BlogStore { blogs: Vec::new(), next_id: 0, clock: epoch }
    }

    /// Creates a post for the authenticated author: the server assigns
    /// the id and sets both timestamps to `now`, so a fresh post always
    /// has `created_at == updated_at` — and the caller becomes its
    /// author, whatever author id the payload claims.
    #[verifier::loop_isolation(false)]
    pub fn create_blog(&mut self, author_id: u128, payload: CreateBlogPayload, now: i64) -> (r:
        Blog)
        requires
            old(self).wf(),
            old(self).next_id < u128::MAX,
            now >= old(self).clock,
        ensures
            final(self).wf(),
            final(self).view() =~= old(self).view().push(r@),
            r@ == (BlogView {
                id: old(self).next_id,
                title: payload.title@,
                content: payload.content@,
                author_id,
                created_at: now,
                updated_at: now,
            }),
            final(self).next_id == old(self).next_id + 1,
            final(self).clock == now,
    {
        let id = self.next_id;
        let stored = Blog {
            id,
            title: payload.title.clone(),
            content: payload.content.clone(),
            author_id,
            created_at: now,
            updated_at: now,
        };
        let returned = Blog {
            id,
            title: payload.title,
            content: payload.content,
            author_id,
            created_at: now,
            updated_at: now,
        };
        let ghost prev = self.view();
        self.blogs.push(stored);
        self.next_id = id + 1;
        self.clock = now;
        proof {
            let v = self.view();
            assert(v =~= prev.push(returned@));
            assert forall|a: int, b: int| 0 <= a < b < v.len() implies (#[trigger] v[a]).id
                != (#[trigger] v[b]).id by {
                if b < prev.len() {
                    assert(v[a] == prev[a] && v[b] == prev[b]);
                } else {
                    assert(v[b] == returned@ && v[a] == prev[a]);
                    assert(prev[a].id < id);
                }
            }
            assert forall|a: int| 0 <= a < v.len() implies (#[trigger] v[a]).id < self.next_id by {
                if a < prev.len() {
                    assert(v[a] == prev[a]);
                }
            }
            assert forall|a: int| 0 <= a < v.len() implies (#[trigger] v[a]).created_at
                <= v[a].updated_at && v[a].updated_at <= self.clock by {
                if a < prev.len() {
                    assert(v[a] == prev[a]);
                    assert(prev[a].updated_at <= old(self).clock);
                }
            }
            assert forall|a: int, b: int| 0 <= a < b < v.len() implies (#[trigger] v[a]).created_at
                <= (#[trigger] v[b]).created_at by {
                if b < prev.len() {
                    assert(v[a] == prev[a] && v[b] == prev[b]);
                } else {
                    assert(v[a] == prev[a]);
                    assert(prev[a].created_at <= prev[a].updated_at && prev[a].updated_at <= old(
                        self,
                    ).clock);
                }
            }
        }
        returned
    }

    /// Public read of one post by id: the post, or `NotFound` exactly
    /// when no post carries the id.
    #[verifier::loop_isolation(false)]
    pub fn get_blog(&self, id: u128) -> (r: Result<&Blog, ApiError>)
        requires
            self.wf(),
        ensures
            r matches Ok(b) ==> b@.id == id && exists|i: int|
                0 <= i < self.view().len() && (#[trigger] self.view()[i]) == b@,
            r is Err <==> forall|i: int|
                0 <= i < self.view().len() ==> (#[trigger] self.view()[i]).id != id,
            r matches Err(e) ==> e == ApiError::NotFound,
    {
        let n = self.blogs.len();
        let mut i: usize = 0;
        while i < n
            invariant
                0 <= i <= n,
                forall|k: int| 0 <= k < i ==> (#[trigger] self.view()[k]).id != id,
            decreases n - i,
        {
            if self.blogs[i].id == id {
                proof {
                    assert((#[trigger] self.view()[i as int]) == self.blogs[i as int]@);
                }
                return Ok(&self.blogs[i]);
            }
            i = i + 1;
        }
        Err(ApiError::NotFound)
    }

    /// Updates a post's title and content and refreshes `updated_at`,
    /// but only when both the post id and the author match — one
    /// conditional write, so a post of another author fails exactly as a
    /// missing one does, with `NotFound`, and the store is unchanged.
    #[verifier::loop_isolation(false)]
    pub fn update_blog(
        &mut self,
        id: u128,
        author_id: u128,
        payload: &UpdateBlogPayload,
        now: i64,
    ) -> (r: Result<Blog, ApiError>)
        requires
            old(self).wf(),
            now >= old(self).clock,
        ensures
            final(self).wf(),
            r is Err <==> forall|i: int|
                0 <= i < old(self).view().len() ==> !((#[trigger] old(self).view()[i]).id == id
                    && old(self).view()[i].author_id == author_id),
            r matches Err(e) ==> e == ApiError::NotFound && *final(self) == *old(self),
            r matches Ok(b) ==> ({
                &&& b@.id == id
                &&& b@.author_id == author_id
                &&& b@.title == payload.title@
                &&& b@.content == payload.content@
                &&& b@.updated_at == now
                &&& final(self).clock == now
                &&& final(self).next_id == old(self).next_id
                &&& exists|i: int|
                    0 <= i < old(self).view().len() && (#[trigger] old(self).view()[i]).id == id
                        && old(self).view()[i].author_id == author_id && b@.created_at == old(
                        self,
                    ).view()[i].created_at && final(self).view() =~= old(self).view().update(i, b@)
                &&& now > old(self).clock ==> b@.updated_at > b@.created_at
            }),
    {
        let n = self.blogs.len();
        let mut i: usize = 0;
        while i < n
            invariant
                0 <= i <= n,
                *self == *old(self),
                forall|k: int|
                    0 <= k < i ==> !((#[trigger] self.view()[k]).id == id
                        && self.view()[k].author_id == author_id),
            decreases n - i,
        {
            if self.blogs[i].id == id && self.blogs[i].author_id == author_id {
                let created_at = self.blogs[i].created_at;
                let updated = Blog {
                    id,
                    title: payload.title.clone(),
                    content: payload.content.clone(),
                    author_id,
                    created_at,
                    updated_at: now,
                };
                let returned = Blog {
                    id,
                    title: payload.title.clone(),
                    content: payload.content.clone(),
                    author_id,
                    created_at,
                    updated_at: now,
                };
                let ghost prev = self.view();
                self.blogs[i] = updated;
                self.clock = now;
                proof {
                    let v = self.view();
                    assert(v =~= prev.update(i as int, returned@));
                    assert((#[trigger] prev[i as int]).id == id && prev[i as int].author_id
                        == author_id);
                    assert(prev[i as int].created_at <= prev[i as int].updated_at <= old(
                        self,
                    ).clock);
                    assert(returned@.id == prev[i as int].id);
                    assert(returned@.created_at == prev[i as int].created_at);
                    assert forall|a: int| 0 <= a < v.len() implies (#[trigger] v[a]).id
                        == prev[a].id && v[a].created_at == prev[a].created_at by {
                        if a != i as int {
                            assert(v[a] == prev[a]);
                        }
                    }
                    assert forall|a: int, b: int| 0 <= a < b < v.len() implies (#[trigger] v[a]).id
                        != (#[trigger] v[b]).id by {
                        assert(prev[a].id != prev[b].id);
                    }
                    assert forall|a: int| 0 <= a < v.len() implies (#[trigger] v[a]).id
                        < self.next_id by {
                        assert(prev[a].id < old(self).next_id);
                    }
                    assert forall|a: int| 0 <= a < v.len() implies (#[trigger] v[a]).created_at
                        <= v[a].updated_at && v[a].updated_at <= self.clock by {
                        assert(prev[a].created_at <= prev[a].updated_at && prev[a].updated_at
                            <= old(self).clock);
                        if a != i as int {
                            assert(v[a] == prev[a]);
                        }
                    }
                    assert forall|a: int, b: int| 0 <= a < b < v.len() implies (
                    #[trigger] v[a]).created_at <= (#[trigger] v[b]).created_at by {
                        assert(prev[a].created_at <= prev[b].created_at);
                    }
                }
                return Ok(returned);
            }
            i = i + 1;
        }
        Err(ApiError::NotFound)
    }

    /// Deletes a post, but only when both the post id and the author
    /// match — one conditional delete, failing with `NotFound` for a
    /// missing post and for another author's post alike.
    #[verifier::loop_isolation(false)]
    pub fn delete_blog(&mut self, id: u128, author_id: u128) -> (r: Result<(), ApiError>)
        requires
            old(self).wf(),
        ensures
            final(self).wf(),
            r is Err <==> forall|i: int|
                0 <= i < old(self).view().len() ==> !((#[trigger] old(self).view()[i]).id == id
                    && old(self).view()[i].author_id == author_id),
            r matches Err(e) ==> e == ApiError::NotFound && *final(self) == *old(self),
            r is Ok ==> exists|i: int|
                0 <= i < old(self).view().len() && (#[trigger] old(self).view()[i]).id == id && old(
                    self,
                ).view()[i].author_id == author_id && final(self).view() =~= old(
                    self,
                ).view().remove(i),
            final(self).next_id == old(self).next_id,
            final(self).clock == old(self).clock,
    {
        let n = self.blogs.len();
        let mut i: usize = 0;
        while i < n
            invariant
                0 <= i <= n,
                *self == *old(self),
                forall|k: int|
                    0 <= k < i ==> !((#[trigger] self.view()[k]).id == id
                        && self.view()[k].author_id == author_id),
            decreases n - i,
        {
            if self.blogs[i].id == id && self.blogs[i].author_id == author_id {
                let ghost prev = self.view();
                self.blogs.remove(i);
                proof {
                    assert((#[trigger] prev[i as int]).id == id && prev[i as int].author_id
                        == author_id);
                    let v = self.view();
                    assert(v =~= prev.remove(i as int));
                    assert forall|a: int| 0 <= a < v.len() implies #[trigger] v[a] == (if a < i as int {
                        prev[a]
                    } else {
                        prev[a + 1]
                    }) by {}
                    assert forall|a: int, b: int| 0 <= a < b < v.len() implies (#[trigger] v[a]).id
                        != (#[trigger] v[b]).id by {
                        let aa: int = if a < i as int { a } else { a + 1 };
                        let bb: int = if b < i as int { b } else { b + 1 };
                        assert(prev[aa].id != prev[bb].id);
                    }
                    assert forall|a: int| 0 <= a < v.len() implies (#[trigger] v[a]).id
                        < self.next_id by {
                        let aa: int = if a < i as int { a } else { a + 1 };
                        assert(prev[aa].id < old(self).next_id);
                    }
                    assert forall|a: int| 0 <= a < v.len() implies (#[trigger] v[a]).created_at
                        <= v[a].updated_at && v[a].updated_at <= self.clock by {
                        let aa: int = if a < i as int { a } else { a + 1 };
                        assert(prev[aa].created_at <= prev[aa].updated_at && prev[aa].updated_at
                            <= old(self).clock);
                    }
                    assert forall|a: int, b: int| 0 <= a < b < v.len() implies (
                    #[trigger] v[a]).created_at <= (#[trigger] v[b]).created_at by {
                        let aa: int = if a < i as int { a } else { a + 1 };
                        let bb: int = if b < i as int { b } else { b + 1 };
                        assert(prev[aa].created_at <= prev[bb].created_at);
                    }
                }
                return Ok(());
            }
            i = i + 1;
        }
        Err(ApiError::NotFound)
    }

    /// The authenticated caller's own posts, newest created first.
    #[verifier::loop_isolation(false)]
    pub fn get_blogs(&self, author_id: u128) -> (r: Vec<Blog>)
        requires
            self.wf(),
        ensures
            r@.map_values(|b: Blog| b@) =~= owned_desc(self.view(), author_id),
    {
        let n = self.blogs.len();
        let mut out: Vec<Blog> = Vec::new();
        let mut i: usize = n;
        while i > 0
            invariant
                0 <= i <= n,
                out@.map_values(|b: Blog| b@) =~= owned_desc(
                    self.view().subrange(i as int, n as int),
                    author_id,
                ),
            decreases i,
        {
            i = i - 1;
            let ghost tail = self.view().subrange(i as int + 1, n as int);
            proof {
                assert(self.view().subrange(i as int, n as int) =~= seq![
                    self.view()[i as int],
                ] + tail);
                lemma_owned_desc_prepend(self.view()[i as int], tail, author_id);
            }
            if self.blogs[i].author_id == author_id {
                let b = &self.blogs[i];
                let copy = Blog {
                    id: b.id,
                    title: b.title.clone(),
                    content: b.content.clone(),
                    author_id: b.author_id,
                    created_at: b.created_at,
                    updated_at: b.updated_at,
                };
                out.push(copy);
            }
        }
        proof {
            assert(self.view().subrange(0, n as int) =~= self.view());
        }
        out
    }
}

/// Prepending one post to a sequence appends it, when it matches, to the
/// end of the author's newest-first listing.
proof fn lemma_owned_desc_prepend(x: BlogView, t: Seq<BlogView>, author: u128)
    ensures
        owned_desc(seq![x] + t, author) =~= owned_desc(t, author) + (if x.author_id == author {
            seq![x]
        } else {
            Seq::<BlogView>::empty()
        }),
    decreases t.len(),
{
    let s = seq![x] + t;
    if t.len() == 0 {
        assert(s.len() == 1 && s.last() == x);
        assert(s.drop_last() =~= Seq::<BlogView>::empty());
        assert(owned_desc(s.drop_last(), author) =~= Seq::<BlogView>::empty());
        assert(owned_desc(t, author) =~= Seq::<BlogView>::empty());
    } else {
        assert(s.last() == t.last());
        assert(s.drop_last() =~= seq![x] + t.drop_last());
        lemma_owned_desc_prepend(x, t.drop_last(), author);
        if t.last().author_id == author {
            assert(owned_desc(s, author) == seq![t.last()] + owned_desc(s.drop_last(), author));
            assert(owned_desc(t, author) == seq![t.last()] + owned_desc(t.drop_last(), author));
        } else {
            assert(owned_desc(s, author) == owned_desc(s.drop_last(), author));
            assert(owned_desc(t, author) == owned_desc(t.drop_last(), author));
        }
    }
}

/// Every post in an author's listing belongs to that author and comes
/// from the store.
pub proof fn lemma_owned_desc_members(s: Seq<BlogView>, author: u128)
    ensures
        forall|k: int|
            0 <= k < owned_desc(s, author).len() ==> (#[trigger] owned_desc(s, author)[k]).author_id
                == author,
        forall|k: int|
            0 <= k < owned_desc(s, author).len() ==> exists|m: int|
                0 <= m < s.len() && (#[trigger] owned_desc(s, author)[k]) == #[trigger] s[m],
    decreases s.len(),
{
    if s.len() > 0 {
        lemma_owned_desc_members(s.drop_last(), author);
        let rest = owned_desc(s.drop_last(), author);
        let out = owned_desc(s, author);
        assert forall|k: int| 0 <= k < out.len() implies (#[trigger] out[k]).author_id == author
            && exists|m: int| 0 <= m < s.len() && out[k] == #[trigger] s[m] by {
            if s.last().author_id == author && k == 0 {
                assert(out[0] == s.last());
                assert(out[0] == s[s.len() - 1]);
            } else {
                let kk: int = if s.last().author_id == author {
                    k - 1
                } else {
                    k
                };
                assert(out[k] == rest[kk]);
                let m = choose|m: int| 0 <= m < s.drop_last().len() && rest[kk] == #[trigger] s.drop_last()[m];
                assert(out[k] == s[m]);
            }
        }
    }
}

/// When the store holds posts in creation order, an author's listing
/// comes out newest first.
pub proof fn lemma_owned_desc_sorted(s: Seq<BlogView>, author: u128)
    requires
        sorted_ascending(s),
    ensures
        sorted_descending(owned_desc(s, author)),
    decreases s.len(),
{
    if s.len() > 0 {
        let s0 = s.drop_last();
        assert forall|i: int, j: int| 0 <= i < j < s0.len() implies (#[trigger] s0[i]).created_at
            <= (#[trigger] s0[j]).created_at by {
            assert(s0[i] == s[i] && s0[j] == s[j]);
        }
        lemma_owned_desc_sorted(s0, author);
        lemma_owned_desc_members(s0, author);
        let rest = owned_desc(s0, author);
        let out = owned_desc(s, author);
        if s.last().author_id == author {
            assert forall|i: int, j: int| 0 <= i < j < out.len() implies (#[trigger] out[i]).created_at
                >= (#[trigger] out[j]).created_at by {
                if i == 0 {
                    assert(out[j] == rest[j - 1]);
                    let m = choose|m: int| 0 <= m < s0.len() && rest[j - 1] == #[trigger] s0[m];
                    assert(s0[m] == s[m]);
                    assert(s[m].created_at <= s[s.len() - 1].created_at);
                    assert(out[0] == s.last());
                } else {
                    assert(out[i] == rest[i - 1] && out[j] == rest[j - 1]);
                }
            }
        }
    }
}

/// When ids are distinct, a post that exists but belongs to a different
/// author satisfies the conditional-write test at no index, just as a
/// missing id does — so, by the contracts of `update_blog` and
/// `delete_blog`, both cases fail with the same `NotFound` and leave the
/// store unchanged: a caller cannot tell another author's post from a
/// missing one.
pub proof fn lemma_other_author_indistinguishable(s: Seq<BlogView>, id: u128, author: u128, w: int)
    requires
        forall|i: int, j: int|
            0 <= i < j < s.len() ==> (#[trigger] s[i]).id != (#[trigger] s[j]).id,
        0 <= w < s.len(),
        s[w].id == id,
        s[w].author_id != author,
    ensures
        forall|i: int|
            0 <= i < s.len() ==> !((#[trigger] s[i]).id == id && s[i].author_id == author),
{
    assert forall|i: int| 0 <= i < s.len() implies !((#[trigger] s[i]).id == id && s[i].author_id
        == author) by {
        if s[i].id == id && s[i].author_id == author {
            if i < w {
                assert(s[i].id != s[w].id);
            } else if i > w {
                assert(s[w].id != s[i].id);
            }
        }
    }
}

/// Parses the authenticated caller's id as the middleware hands it over:
/// the decimal form of the id, and nothing else, is accepted.
pub fn parse_user_id(s: &str) -> (r: Result<u128, ApiError>)
    ensures
        r matches Ok(n) ==> s@ == dec_str_of(n as nat),
        r is Err <==> forall|n: u128| s@ != dec_str_of(n as nat),
        r matches Err(e) ==> e == ApiError::BadRequest,
{
    match parse_u128(s) {
        Some(n) => Ok(n),
        None => Err(ApiError::BadRequest),
    }
}

} // verus!
