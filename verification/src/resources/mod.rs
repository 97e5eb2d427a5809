use vstd::prelude::*;

pub mod framebuffer;
pub mod glyph_cache;
pub mod static_mesh;
pub mod surfelize;

verus! {

/// Hands out handle numbers one after another; the owner keeps one counter
/// per kind of handle.
pub struct HandleCounter {
    next: usize,
}

impl HandleCounter {
    /// The number the next handle gets.
    pub closed spec fn next_index(&self) -> usize {
        self.next
    }

    /// A counter that starts at zero.
    pub fn new() -> (c: Self)
        ensures
            c.next_index() == 0,
    {
        HandleCounter { next: 0 }
    }

    /// Takes the next number.
    pub fn take(&mut self) -> (i: usize)
        requires
            old(self).next_index() < usize::MAX,
        ensures
            i == old(self).next_index(),
            final(self).next_index() == old(self).next_index() + 1,
    {
        let i = self.next;
        self.next = self.next + 1;
        i
    }
}

/// A handle to a resource kept by the resource manager.
pub trait Handle: Sized {
    /// The number behind the handle.
    spec fn index(&self) -> usize;

    /// The handle that refers to nothing.
    fn invalid() -> (h: Self)
        ensures
            h.index() == usize::MAX;

    /// A handle that no earlier call on `counter` gave out, and that is not
    /// the invalid one.
    fn unique(counter: &mut HandleCounter) -> (h: Self)
        requires
            old(counter).next_index() < usize::MAX,
        ensures
            h.index() == old(counter).next_index(),
            h.index() != usize::MAX,
            final(counter).next_index() == old(counter).next_index() + 1;
}

/// Handle to a texture.
#[derive(PartialEq, Eq, Structural, Hash, Clone, Copy)]
pub struct TextureHandle(usize);

/// Handle to a material.
#[derive(PartialEq, Eq, Structural, Hash, Clone, Copy)]
pub struct MaterialHandle(usize);

/// Handle to a static mesh.
#[derive(PartialEq, Eq, Structural, Hash, Clone, Copy)]
pub struct StaticMeshHandle(usize);

impl Handle for TextureHandle {
    closed spec fn index(&self) -> usize {
        self.0
    }

    fn invalid() -> (h: Self) {
        TextureHandle(usize::MAX)
    }

    fn unique(counter: &mut HandleCounter) -> (h: Self) {
        TextureHandle(counter.take())
    }
}

impl Handle for MaterialHandle {
    closed spec fn index(&self) -> usize {
        self.0
    }

    fn invalid() -> (h: Self) {
        MaterialHandle(usize::MAX)
    }

    fn unique(counter: &mut HandleCounter) -> (h: Self) {
        MaterialHandle(counter.take())
    }
}

impl Handle for StaticMeshHandle {
    closed spec fn index(&self) -> usize {
        self.0
    }

    fn invalid() -> (h: Self) {
        StaticMeshHandle(usize::MAX)
    }

    fn unique(counter: &mut HandleCounter) -> (h: Self) {
        StaticMeshHandle(counter.take())
    }
}

/// RGB bytes widened to RGBA: every group of three bytes (the last group
/// may be shorter) followed by an opaque alpha byte.
pub open spec fn rgba_of(data: Seq<u8>) -> Seq<u8>
    decreases data.len(),
{
    if data.len() == 0 {
        Seq::empty()
    } else if data.len() <= 3 {
        data.push(255u8)
    } else {
        data.take(3).push(255u8) + rgba_of(data.skip(3))
    }
}

/// Widening adds one alpha byte per started group of three bytes, and every
/// fourth byte of the result (and the last one) is opaque.
pub proof fn lemma_rgba_shape(data: Seq<u8>)
    ensures
        rgba_of(data).len() == data.len() + (data.len() + 2) / 3,
        forall|k: int| 0 <= k < rgba_of(data).len() && k % 4 == 3 ==> #[trigger] rgba_of(data)[k] == 255u8,
        data.len() > 0 ==> rgba_of(data).last() == 255u8,
    decreases data.len(),
{
    if data.len() > 3 {
        let rest = data.skip(3);
        lemma_rgba_shape(rest);
        let head = data.take(3).push(255u8);
        assert(rgba_of(data) == head + rgba_of(rest));
        assert forall|k: int| 0 <= k < rgba_of(data).len() && k % 4 == 3 implies #[trigger] rgba_of(data)[k] == 255u8 by {
            if k >= 4 {
                assert(rgba_of(data)[k] == rgba_of(rest)[k - 4]);
                assert((k - 4) % 4 == 3);
            }
        }
    }
}

/// Widens RGB pixel data to RGBA with full opacity.
pub fn rgb8_to_rgba8(data: &[u8]) -> (res: Vec<u8>)
    ensures
        res@ == rgba_of(data@),
{
    let mut res: Vec<u8> = Vec::new();
    let mut i: usize = 0;
    proof {
        assert(data@.skip(0) =~= data@);
    }
    while i < data.len()
        invariant
            i <= data@.len(),
            rgba_of(data@) == res@ + rgba_of(data@.skip(i as int)),
        decreases data@.len() - i,
    {
        let end = if data.len() - i < 3 {
            data.len()
        } else {
            i + 3
        };
        let ghost res_before = res@;
        let mut j = i;
        while j < end
            invariant
                i <= j <= end <= data@.len(),
                res@ == res_before + data@.subrange(i as int, j as int),
            decreases end - j,
        {
            res.push(data[j]);
            proof {
                assert(data@.subrange(i as int, j + 1) =~= data@.subrange(i as int, j as int).push(data@[j as int]));
            }
            j = j + 1;
        }
        res.push(255u8);
        proof {
            let rest = data@.skip(i as int);
            if rest.len() <= 3 {
                assert(rest =~= data@.subrange(i as int, end as int));
                assert(data@.skip(end as int) =~= Seq::<u8>::empty());
            } else {
                assert(rest.take(3) =~= data@.subrange(i as int, end as int));
                assert(rest.skip(3) =~= data@.skip(end as int));
            }
            assert(rgba_of(data@) =~= res@ + rgba_of(data@.skip(end as int)));
        }
        i = end;
    }
    proof {
        assert(data@.skip(i as int) =~= Seq::<u8>::empty());
        assert(res@ + Seq::<u8>::empty() =~= res@);
    }
    res
}

} // verus!
