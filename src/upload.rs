//! The part cutting of a serial multipart upload: bytes arrive in chunks of
//! any size, leave in parts of exactly the pool size (the last one may be
//! shorter), numbered from 1 without gaps; a failed session is aborted once.

use vstd::prelude::*;
use vstd::arithmetic::div_mod::lemma_fundamental_div_mod_converse;

use crate::s3::S3Error;

verus! {

/// One part, ready to be sent.
#[derive(Debug)]
pub struct UploadPart {
    pub part_number: u32,
    pub bytes: Vec<u8>,
}

/// A part that the store accepted, with the tag it returned.
#[derive(Debug, Clone)]
pub struct PartTag {
    pub part_number: u32,
    pub etag: String,
}

/// All of `parts`, one after the other.
pub open spec fn joined_parts(parts: Seq<Seq<u8>>) -> Seq<u8>
    decreases parts.len(),
{
    if parts.len() == 0 {
        Seq::empty()
    } else {
        joined_parts(parts.drop_last()) + parts.last()
    }
}

/// One multipart upload in progress.
pub struct UploadSession {
    capacity: usize,
    buffer: Vec<u8>,
    tags: Vec<PartTag>,
    finished: bool,
    failed: bool,
    emitted_count: usize,
    received: Ghost<Seq<u8>>,
    emitted: Ghost<Seq<Seq<u8>>>,
}

impl UploadSession {
    /// The size of a full part.
    pub closed spec fn capacity(&self) -> nat {
        self.capacity as nat
    }

    /// Every byte handed to the session so far.
    pub closed spec fn received(&self) -> Seq<u8> {
        self.received@
    }

    /// The contents of the parts handed out so far, in order; part `i` has
    /// number `i + 1`.
    pub closed spec fn emitted(&self) -> Seq<Seq<u8>> {
        self.emitted@
    }

    /// The bytes held back until a part is full.
    pub closed spec fn buffered(&self) -> Seq<u8> {
        self.buffer@
    }

    /// The tags recorded for uploaded parts.
    pub closed spec fn tags(&self) -> Seq<PartTag> {
        self.tags@
    }

    /// Whether the input has ended.
    pub closed spec fn is_finished(&self) -> bool {
        self.finished
    }

    /// Whether the session has failed (and its abort has been asked for).
    pub closed spec fn is_failed(&self) -> bool {
        self.failed
    }

    /// The session's invariant; `new` establishes it and every method keeps
    /// it, so it holds of every session.
    pub closed spec fn wf(&self) -> bool {
        &&& self.capacity > 0
        &&& joined_parts(self.emitted@) + self.buffer@ == self.received@
        &&& self.buffer@.len() < self.capacity
        &&& self.emitted@.len() <= u32::MAX
        &&& self.emitted_count == self.emitted@.len()
        &&& forall|i: int|
            0 <= i < self.emitted@.len() ==> {
                ||| (#[trigger] self.emitted@[i]).len() == self.capacity
                ||| (self.finished && i == self.emitted@.len() - 1 && 0 < self.emitted@[i].len()
                    < self.capacity)
            }
        &&& self.finished ==> self.buffer@.len() == 0
        &&& self.tags@.len() <= self.emitted@.len()
        &&& forall|i: int|
            0 <= i < self.tags@.len() ==> (#[trigger] self.tags@[i]).part_number == i + 1
    }

    /// Whether the input has ended.
    pub fn input_ended(&self) -> (r: bool)
        ensures
            r == self.is_finished(),
    {
        self.finished
    }

    /// A session cutting parts of `capacity` bytes; a zero capacity is
    /// refused.
    pub fn new(capacity: usize) -> (r: Result<UploadSession, S3Error>)
        ensures
            capacity == 0 <==> r is Err,
            r matches Err(e) ==> e is InvalidPoolSize,
            r matches Ok(s) ==> {
                &&& s.wf()
                &&& s.capacity() == capacity
                &&& s.received() == Seq::<u8>::empty()
                &&& s.emitted() == Seq::<Seq<u8>>::empty()
                &&& s.tags() == Seq::<PartTag>::empty()
                &&& !s.is_finished()
                &&& !s.is_failed()
            },
    {
        if capacity == 0 {
            return Err(S3Error::InvalidPoolSize);
        }
        let s = UploadSession {
            capacity,
            buffer: Vec::new(),
            tags: Vec::new(),
            finished: false,
            failed: false,
            emitted_count: 0,
            received: Ghost(Seq::empty()),
            emitted: Ghost(Seq::empty()),
        };
        assert(joined_parts(s.emitted@) + s.buffer@ =~= s.received@);
        Ok(s)
    }

    /// Takes the next chunk of input and hands out every part it fills, in
    /// order; what does not fill a part stays buffered. Refuses the chunk,
    /// changing nothing, when the parts it may fill could run past the last
    /// part number.
    pub fn push(&mut self, data: Vec<u8>) -> (r: Result<Vec<UploadPart>, S3Error>)
        requires
            old(self).wf(),
            !old(self).is_finished(),
        ensures
            final(self).wf(),
            r is Err <==> old(self).emitted().len() + data@.len() as int / (old(self).capacity() as int) + 1
                > u32::MAX,
            r matches Err(e) ==> e is TooManyParts && *final(self) == *old(self),
            r matches Ok(parts) ==> {
                &&& final(self).capacity() == old(self).capacity()
                &&& final(self).received() == old(self).received() + data@
                &&& final(self).tags() == old(self).tags()
                &&& !final(self).is_finished()
                &&& final(self).is_failed() == old(self).is_failed()
                &&& old(self).emitted().is_prefix_of(final(self).emitted())
                &&& parts.len() == final(self).emitted().len() - old(self).emitted().len()
                &&& parts.len() == (old(self).buffered().len() + data@.len()) as int / (old(self).capacity() as int)
                &&& forall|i: int|
                    0 <= i < parts.len() ==> {
                        &&& (#[trigger] parts@[i]).part_number == old(self).emitted().len() + i + 1
                        &&& parts@[i].bytes@ == final(self).emitted()[old(self).emitted().len() + i]
                        &&& parts@[i].bytes@.len() == old(self).capacity()
                    }
                &&& joined_parts(
                    final(self).emitted().subrange(
                        old(self).emitted().len() as int,
                        final(self).emitted().len() as int,
                    ),
                ) + final(self).buffered() == old(self).buffered() + data@
                &&& final(self).buffered().len() < final(self).capacity()
            },
    {
        if self.emitted_count > 0xffff_fffe || data.len() / self.capacity > 0xffff_fffe
            - self.emitted_count {
            return Err(S3Error::TooManyParts);
        }
        let mut data = data;
        let ghost d = data@;
        let ghost old_emitted = self.emitted@;
        let ghost cap = self.capacity as int;
        self.buffer.append(&mut data);
        self.received = Ghost(self.received@ + d);
        assert(joined_parts(self.emitted@) + self.buffer@ =~= self.received@);
        let mut parts: Vec<UploadPart> = Vec::new();
        while self.buffer.len() >= self.capacity
            invariant
                self.capacity > 0,
                cap == self.capacity,
                !self.finished,
                self.failed == old(self).failed,
                self.capacity == old(self).capacity,
                self.tags == old(self).tags,
                self.received@ == old(self).received@ + d,
                joined_parts(self.emitted@) + self.buffer@ == self.received@,
                old_emitted.len() + d.len() as int / cap + 1 <= u32::MAX,
                self.emitted@.len() <= u32::MAX,
                self.emitted_count == self.emitted@.len(),
                old_emitted == old(self).emitted@,
                old_emitted.is_prefix_of(self.emitted@),
                old(self).buffer@.len() < cap,
                (self.emitted@.len() - old_emitted.len()) * cap + self.buffer@.len() == old(
                    self,
                ).buffer@.len() + d.len(),
                forall|i: int|
                    0 <= i < self.emitted@.len() ==> (#[trigger] self.emitted@[i]).len()
                        == self.capacity,
                self.tags@.len() <= old_emitted.len(),
                forall|i: int|
                    0 <= i < self.tags@.len() ==> (#[trigger] self.tags@[i]).part_number == i + 1,
                parts.len() == self.emitted@.len() - old_emitted.len(),
                forall|i: int|
                    0 <= i < parts.len() ==> {
                        &&& (#[trigger] parts@[i]).part_number == old_emitted.len() + i + 1
                        &&& parts@[i].bytes@ == self.emitted@[old_emitted.len() + i]
                    },
            decreases self.buffer.len(),
        {
            let ghost k = self.emitted@.len() - old_emitted.len();
            proof {
                assert(k * cap + cap <= old(self).buffer@.len() + d.len());
                assert(k * cap <= d.len());
                vstd::arithmetic::div_mod::lemma_div_is_ordered(k * cap, d.len() as int, cap);
                vstd::arithmetic::div_mod::lemma_div_by_multiple(k, cap);
            }
            let ghost before = self.buffer@;
            let ghost em = self.emitted@;
            let mut full = self.buffer.split_off(self.capacity);
            std::mem::swap(&mut self.buffer, &mut full);
            self.emitted_count = self.emitted_count + 1;
            let part_number = self.emitted_count as u32;
            proof {
                self.emitted@ = em.push(full@);
                assert(self.emitted@.drop_last() == em);
                assert(before =~= full@ + self.buffer@);
                assert(joined_parts(self.emitted@) + self.buffer@ =~= joined_parts(em) + before);
                assert((k + 1) * cap == k * cap + cap) by (nonlinear_arith);
            }
            parts.push(UploadPart { part_number, bytes: full });
        }
        proof {
            let delta = self.emitted@.subrange(old_emitted.len() as int, self.emitted@.len() as int);
            assert(self.emitted@ =~= old_emitted + delta);
            lemma_joined_append(old_emitted, delta);
            let x = joined_parts(old_emitted);
            let y = joined_parts(delta);
            let ob = old(self).buffer@;
            assert(x + ob == old(self).received@);
            assert(x + y + self.buffer@ == x + ob + d);
            assert((x + y + self.buffer@).subrange(x.len() as int, (x + y + self.buffer@).len() as int)
                =~= y + self.buffer@);
            assert((x + ob + d).subrange(x.len() as int, (x + ob + d).len() as int) =~= ob + d);
            assert forall|i: int| 0 <= i < delta.len() implies (#[trigger] delta[i]).len() == cap by {
                assert(delta[i] == self.emitted@[old_emitted.len() + i]);
            }
            lemma_joined_full_parts(delta, cap);
            lemma_fundamental_div_mod_converse(
                (ob.len() + d.len()) as int,
                cap,
                delta.len() as int,
                self.buffer@.len() as int,
            );
        }
        Ok(parts)
    }

    /// Ends the input: hands out what is still buffered as the last part,
    /// if anything is.
    pub fn finish(&mut self) -> (r: Result<Option<UploadPart>, S3Error>)
        requires
            old(self).wf(),
            !old(self).is_finished(),
        ensures
            final(self).wf(),
            final(self).capacity() == old(self).capacity(),
            final(self).received() == old(self).received(),
            final(self).tags() == old(self).tags(),
            final(self).is_failed() == old(self).is_failed(),
            r is Err <==> old(self).buffered().len() > 0 && old(self).emitted().len() >= u32::MAX,
            r is Ok ==> final(self).is_finished() && final(self).buffered().len() == 0,
            r matches Err(e) ==> e is TooManyParts && *final(self) == *old(self),
            r matches Ok(None) ==> old(self).buffered().len() == 0 && final(self).emitted()
                == old(self).emitted(),
            r matches Ok(Some(p)) ==> {
                &&& old(self).buffered().len() > 0
                &&& final(self).emitted() == old(self).emitted().push(p.bytes@)
                &&& p.bytes@ == old(self).buffered()
                &&& p.part_number == old(self).emitted().len() + 1
            },
    {
        if self.buffer.len() == 0 {
            self.finished = true;
            return Ok(None);
        }
        if self.emitted_count >= 0xffff_ffff {
            return Err(S3Error::TooManyParts);
        }
        let ghost em = self.emitted@;
        let ghost held = self.buffer@;
        self.emitted_count = self.emitted_count + 1;
        let part_number = self.emitted_count as u32;
        let bytes = self.buffer.split_off(0);
        self.finished = true;
        proof {
            assert(bytes@ =~= held);
            assert(self.buffer@ =~= Seq::<u8>::empty());
            assert(joined_parts(em) + held == self.received@);
            self.emitted@ = em.push(bytes@);
            assert(self.emitted@.drop_last() == em);
            assert(joined_parts(self.emitted@) + self.buffer@ =~= joined_parts(em) + bytes@);
            assert forall|i: int| 0 <= i < self.emitted@.len() implies {
                ||| (#[trigger] self.emitted@[i]).len() == self.capacity
                ||| (self.finished && i == self.emitted@.len() - 1 && 0 < self.emitted@[i].len()
                    < self.capacity)
            } by {
                if i < em.len() {
                    assert(self.emitted@[i] == em[i]);
                }
            }
        }
        Ok(Some(UploadPart { part_number, bytes }))
    }

    /// Records the tag of the next uploaded part, numbered after the ones
    /// recorded before; ignored (false) when every handed-out part has one.
    pub fn record_tag(&mut self, etag: String) -> (r: bool)
        requires
            old(self).wf(),
        ensures
            final(self).wf(),
            final(self).capacity() == old(self).capacity(),
            final(self).received() == old(self).received(),
            final(self).emitted() == old(self).emitted(),
            final(self).is_finished() == old(self).is_finished(),
            final(self).is_failed() == old(self).is_failed(),
            r == (old(self).tags().len() < old(self).emitted().len()),
            r ==> final(self).tags() == old(self).tags().push(
                PartTag { part_number: (old(self).tags().len() + 1) as u32, etag },
            ),
            !r ==> final(self).tags() == old(self).tags(),
    {
        if self.tags.len() >= self.emitted_count {
            return false;
        }
        let part_number = (self.tags.len() + 1) as u32;
        self.tags.push(PartTag { part_number, etag });
        true
    }

    /// Marks the session failed; true only the first time, when the caller
    /// must abort the upload with the store.
    pub fn fail(&mut self) -> (r: bool)
        requires
            old(self).wf(),
        ensures
            final(self).wf(),
            r == !old(self).is_failed(),
            final(self).is_failed(),
            final(self).capacity() == old(self).capacity(),
            final(self).received() == old(self).received(),
            final(self).emitted() == old(self).emitted(),
            final(self).tags() == old(self).tags(),
            final(self).is_finished() == old(self).is_finished(),
    {
        let first = !self.failed;
        self.failed = true;
        first
    }

    /// The parts to commit the upload with: given only when the input has
    /// ended, nothing failed and every part has its tag.
    pub fn completion(&self) -> (r: Option<&Vec<PartTag>>)
        requires
            self.wf(),
        ensures
            r is Some <==> self.is_finished() && !self.is_failed() && self.tags().len()
                == self.emitted().len(),
            r matches Some(t) ==> t@ == self.tags(),
    {
        if self.finished && !self.failed && self.tags.len() == self.emitted_count {
            Some(&self.tags)
        } else {
            None
        }
    }
}

/// Once the input has ended, the parts handed out are the input cut into
/// `ceil(S / P)` pieces: all of `P` bytes but the last, which holds 1 to `P`
/// bytes; joined they are exactly the input. Part `i` is numbered `i + 1`.
pub proof fn lemma_parts_cover_stream(s: UploadSession)
    requires
        s.wf(),
        s.is_finished(),
    ensures
        joined_parts(s.emitted()) == s.received(),
        s.emitted().len() == (s.received().len() + s.capacity() - 1) / (s.capacity() as int),
        forall|i: int| 0 <= i < s.emitted().len() - 1 ==> (#[trigger] s.emitted()[i]).len() == s.capacity(),
        s.emitted().len() > 0 ==> 0 < s.emitted().last().len() <= s.capacity(),
{
    let e = s.emitted();
    let p = s.capacity() as int;
    assert(s.buffer@ =~= Seq::<u8>::empty());
    assert(joined_parts(e) =~= s.received());
    if e.len() == 0 {
        assert(0 * p == 0) by (nonlinear_arith);
        lemma_fundamental_div_mod_converse(p - 1, p, 0, p - 1);
    } else {
        let n = e.len() as int;
        lemma_joined_full_parts(e.drop_last(), p);
        let l = e.last().len() as int;
        assert(e[n - 1] == e.last());
        assert(joined_parts(e).len() == (n - 1) * p + l);
        assert((n - 1) * p + l + p - 1 == n * p + (l - 1)) by (nonlinear_arith);
        lemma_fundamental_div_mod_converse((n - 1) * p + l + p - 1, p, n, l - 1);
    }
}

/// Joining two runs of parts one after the other joins all of them.
proof fn lemma_joined_append(a: Seq<Seq<u8>>, b: Seq<Seq<u8>>)
    ensures
        joined_parts(a + b) == joined_parts(a) + joined_parts(b),
    decreases b.len(),
{
    if b.len() == 0 {
        assert(a + b =~= a);
        assert(joined_parts(a) + joined_parts(b) =~= joined_parts(a));
    } else {
        assert((a + b).drop_last() =~= a + b.drop_last());
        assert((a + b).last() == b.last());
        lemma_joined_append(a, b.drop_last());
        assert(joined_parts(a + b) =~= joined_parts(a) + joined_parts(b));
    }
}

/// Parts of `p` bytes each join to `len * p` bytes.
proof fn lemma_joined_full_parts(e: Seq<Seq<u8>>, p: int)
    requires
        forall|i: int| 0 <= i < e.len() ==> (#[trigger] e[i]).len() == p,
    ensures
        joined_parts(e).len() == e.len() * p,
    decreases e.len(),
{
    if e.len() > 0 {
        let d = e.drop_last();
        assert forall|i: int| 0 <= i < d.len() implies (#[trigger] d[i]).len() == p by {
            assert(d[i] == e[i]);
        }
        lemma_joined_full_parts(d, p);
        assert(e[e.len() - 1] == e.last());
        assert((e.len() - 1) * p + p == e.len() * p) by (nonlinear_arith);
    }
}

} // verus!
