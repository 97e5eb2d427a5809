use vstd::prelude::*;
use vstd::string::StringExecFns;

use crate::resources::TextureHandle;

verus! {

/// The textures registered under `name` in a list of entries: those of the
/// last entry with that name.
pub open spec fn lookup(entries: Seq<(String, Vec<TextureHandle>)>, name: Seq<char>) -> Option<
    Seq<TextureHandle>,
>
    decreases entries.len(),
{
    if entries.len() == 0 {
        None
    } else if entries.last().0@ == name {
        Some(entries.last().1@)
    } else {
        lookup(entries.drop_last(), name)
    }
}

/// The textures of entries, by name.
pub open spec fn entries_view(entries: Seq<(String, Vec<TextureHandle>)>) -> Map<Seq<char>, Seq<TextureHandle>> {
    Map::new(|n: Seq<char>| lookup(entries, n) is Some, |n: Seq<char>| lookup(entries, n).unwrap())
}

/// The textures in a view under `name`, or none.
pub open spec fn textures_or_none(m: Map<Seq<char>, Seq<TextureHandle>>, name: Seq<char>) -> Seq<TextureHandle> {
    if m.contains_key(name) {
        m[name]
    } else {
        Seq::empty()
    }
}

/// The name under which the renderer knows a framebuffer: the framebuffer's
/// name, a dot, and `1` for the copy kept from the previous frame or `0`.
pub open spec fn register_name_spec(name: Seq<char>, is_alt: bool) -> Seq<char> {
    name + if is_alt {
        ".1"@
    } else {
        ".0"@
    }
}

/// The name under which the renderer knows a framebuffer (see
/// `register_name_spec`).
pub fn framebuffer_register_name(name: &str, is_alt: bool) -> (r: String)
    ensures
        r@ == register_name_spec(name@, is_alt),
{
    let mut r = <String as StringExecFns>::from_str(name);
    if is_alt {
        r.append(".1");
    } else {
        r.append(".0");
    }
    r
}

/// The texture handles of each framebuffer, by name, and those of the copies
/// kept from the previous frame.
pub struct FramebufferRegistry {
    framebuffers: Vec<(String, Vec<TextureHandle>)>,
    alt_framebuffers: Vec<(String, Vec<TextureHandle>)>,
}

impl FramebufferRegistry {
    /// The textures of each framebuffer.
    pub closed spec fn framebuffers(&self) -> Map<Seq<char>, Seq<TextureHandle>> {
        entries_view(self.framebuffers@)
    }

    /// The textures of the copy of each framebuffer kept from the previous
    /// frame.
    pub closed spec fn alt_framebuffers(&self) -> Map<Seq<char>, Seq<TextureHandle>> {
        entries_view(self.alt_framebuffers@)
    }

    /// A registry with no framebuffer.
    pub fn new() -> (r: Self)
        ensures
            r.framebuffers() == Map::<Seq<char>, Seq<TextureHandle>>::empty(),
            r.alt_framebuffers() == Map::<Seq<char>, Seq<TextureHandle>>::empty(),
    {
        let r = FramebufferRegistry { framebuffers: Vec::new(), alt_framebuffers: Vec::new() };
        assert(r.framebuffers() =~= Map::<Seq<char>, Seq<TextureHandle>>::empty());
        assert(r.alt_framebuffers() =~= Map::<Seq<char>, Seq<TextureHandle>>::empty());
        r
    }

    /// Position of the last entry named `name`, if any.
    fn find(entries: &Vec<(String, Vec<TextureHandle>)>, name: &String) -> (r: Option<usize>)
        ensures
            r is None ==> lookup(entries@, name@) is None,
            r matches Some(i) ==> i < entries@.len() && entries@[i as int].0@ == name@ && lookup(
                entries@,
                name@,
            ) == Some(entries@[i as int].1@) && forall|j: int|
                i < j < entries@.len() ==> (#[trigger] entries@[j]).0@ != name@,
    {
        let mut k = entries.len();
        proof {
            assert(entries@.take(k as int) =~= entries@);
        }
        while k > 0
            invariant
                k <= entries@.len(),
                lookup(entries@, name@) == lookup(entries@.take(k as int), name@),
                forall|j: int| k <= j < entries@.len() ==> (#[trigger] entries@[j]).0@ != name@,
            decreases k,
        {
            let ghost t = entries@.take(k as int);
            proof {
                assert(t.drop_last() =~= entries@.take(k - 1));
                assert(t.last() == entries@[k - 1]);
            }
            if entries[k - 1].0 == *name {
                return Some(k - 1);
            }
            k = k - 1;
        }
        None
    }

    proof fn lemma_lookup_update(
        entries: Seq<(String, Vec<TextureHandle>)>,
        i: int,
        e: (String, Vec<TextureHandle>),
        n: Seq<char>,
    )
        requires
            0 <= i < entries.len(),
            entries[i].0@ == e.0@,
            forall|j: int| i < j < entries.len() ==> (#[trigger] entries[j]).0@ != e.0@,
        ensures
            n == e.0@ ==> lookup(entries.update(i, e), n) == Some(e.1@),
            n != e.0@ ==> lookup(entries.update(i, e), n) == lookup(entries, n),
        decreases entries.len(),
    {
        let u = entries.update(i, e);
        if i < entries.len() - 1 {
            assert(u.drop_last() =~= entries.drop_last().update(i, e));
            Self::lemma_lookup_update(entries.drop_last(), i, e, n);
        } else {
            assert(u.drop_last() =~= entries.drop_last());
        }
    }

    fn extend_entries(entries: &mut Vec<(String, Vec<TextureHandle>)>, name: &str, handles: &[TextureHandle])
        ensures
            entries_view(final(entries)@) == entries_view(old(entries)@).insert(
                name@,
                textures_or_none(entries_view(old(entries)@), name@) + handles@,
            ),
    {
        let key = <String as StringExecFns>::from_str(name);
        let found = Self::find(entries, &key);
        match found {
            Some(i) => {
                let ghost before = entries@;
                let mut list = Vec::new();
                std::mem::swap(&mut list, &mut entries[i].1);
                let mut k: usize = 0;
                let ghost start = list@;
                while k < handles.len()
                    invariant
                        k <= handles@.len(),
                        list@ == start + handles@.take(k as int),
                    decreases handles@.len() - k,
                {
                    list.push(handles[k]);
                    proof {
                        assert(handles@.take(k + 1) =~= handles@.take(k as int).push(handles@[k as int]));
                    }
                    k = k + 1;
                }
                let ghost mid = entries@;
                std::mem::swap(&mut list, &mut entries[i].1);
                proof {
                    assert(handles@.take(handles@.len() as int) =~= handles@);
                    assert(start == before[i as int].1@);
                    assert(entries@ == before.update(i as int, entries@[i as int]));
                    assert(entries@[i as int].0@ == name@);
                    assert forall|n: Seq<char>| #![trigger lookup(entries@, n)] true implies
                        lookup(entries@, n) == (if n == name@ { Some(start + handles@) } else { lookup(before, n) }) by {
                        Self::lemma_lookup_update(before, i as int, entries@[i as int], n);
                    }
                    assert(entries_view(entries@) =~= entries_view(before).insert(
                        name@,
                        textures_or_none(entries_view(before), name@) + handles@,
                    ));
                }
            },
            None => {
                let mut list: Vec<TextureHandle> = Vec::new();
                let mut k: usize = 0;
                while k < handles.len()
                    invariant
                        k <= handles@.len(),
                        list@ == handles@.take(k as int),
                    decreases handles@.len() - k,
                {
                    list.push(handles[k]);
                    proof {
                        assert(handles@.take(k + 1) =~= handles@.take(k as int).push(handles@[k as int]));
                    }
                    k = k + 1;
                }
                let ghost before = entries@;
                entries.push((key, list));
                proof {
                    assert(handles@.take(handles@.len() as int) =~= handles@);
                    assert(entries@.drop_last() =~= before);
                    assert(textures_or_none(entries_view(before), name@) =~= Seq::<TextureHandle>::empty());
                    assert(entries_view(entries@) =~= entries_view(before).insert(
                        name@,
                        textures_or_none(entries_view(before), name@) + handles@,
                    ));
                }
            },
        }
    }

    /// Adds textures to framebuffer `name` (or to its copy from the previous
    /// frame, when `alt`), making the framebuffer if it is new.
    pub fn extend_framebuffer(&mut self, name: &str, handles: &[TextureHandle], alt: bool)
        ensures
            !alt ==> final(self).framebuffers() == old(self).framebuffers().insert(
                name@,
                textures_or_none(old(self).framebuffers(), name@) + handles@,
            ) && final(self).alt_framebuffers() == old(self).alt_framebuffers(),
            alt ==> final(self).alt_framebuffers() == old(self).alt_framebuffers().insert(
                name@,
                textures_or_none(old(self).alt_framebuffers(), name@) + handles@,
            ) && final(self).framebuffers() == old(self).framebuffers(),
    {
        if alt {
            Self::extend_entries(&mut self.alt_framebuffers, name, handles);
        } else {
            Self::extend_entries(&mut self.framebuffers, name, handles);
        }
    }

    /// The texture at `index` of framebuffer `name` (or of its copy from the
    /// previous frame, when `alt`), if there is one.
    pub fn framebuffer_handle(&self, name: &str, index: usize, alt: bool) -> (r: Option<TextureHandle>)
        ensures
            ({
                let m = if alt {
                    self.alt_framebuffers()
                } else {
                    self.framebuffers()
                };
                &&& r is Some <==> (m.contains_key(name@) && index < m[name@].len())
                &&& r matches Some(h) ==> h == m[name@][index as int]
            }),
    {
        let key = <String as StringExecFns>::from_str(name);
        let entries = if alt {
            &self.alt_framebuffers
        } else {
            &self.framebuffers
        };
        match Self::find(entries, &key) {
            Some(i) => {
                let list = &entries[i].1;
                if index < list.len() {
                    Some(list[index])
                } else {
                    None
                }
            },
            None => None,
        }
    }

    /// Whether there is a copy of framebuffer `name` from the previous frame.
    pub fn has_alt(&self, name: &str) -> (r: bool)
        ensures
            r == self.alt_framebuffers().contains_key(name@),
    {
        let key = <String as StringExecFns>::from_str(name);
        Self::find(&self.alt_framebuffers, &key).is_some()
    }

    /// The name under which the renderer knows framebuffer `name`: its copy
    /// from the previous frame when `alt` is asked and there is such a copy,
    /// else the framebuffer itself.
    pub fn framebuffer_name(&self, name: &str, alt: bool) -> (r: String)
        ensures
            r@ == register_name_spec(name@, alt && self.alt_framebuffers().contains_key(name@)),
    {
        let get_alt = alt && self.has_alt(name);
        framebuffer_register_name(name, get_alt)
    }

    /// The name of framebuffer `name` for frame number `iteration`: odd
    /// frames read the copy from the previous frame, where there is one.
    pub fn context_framebuffer_name(&self, name: &str, iteration: u32) -> (r: String)
        ensures
            r@ == register_name_spec(
                name@,
                iteration % 2 == 1 && self.alt_framebuffers().contains_key(name@),
            ),
    {
        self.framebuffer_name(name, iteration % 2 == 1)
    }
}

} // verus!
