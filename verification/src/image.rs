//! The registry of spawnable program images.
use vstd::prelude::*;
use crate::bytes;
use crate::bytes::copy_field;

verus! {

/// Images the registry holds.
pub const MAX_IMAGES: usize = 12;

/// Bytes of an image name.
pub const NAME_MAX: usize = 16;

/// One registered image.
#[derive(Clone, Copy)]
pub struct ImageEntry {
    pub in_use: bool,
    pub name: [u8; NAME_MAX],
    pub name_len: usize,
    pub data: &'static [u8],
}

/// The registry.
pub struct Images {
    pub v: Vec<ImageEntry>,
}

/// A name as the registry keeps it: its first sixteen bytes.
pub open spec fn kept_name(name: Seq<u8>) -> Seq<u8> {
    if name.len() <= NAME_MAX {
        name
    } else {
        name.subrange(0, NAME_MAX as int)
    }
}

impl ImageEntry {
    /// The name registered.
    pub open spec fn label(&self) -> Seq<u8> {
        self.name@.subrange(0, self.name_len as int)
    }
}

impl Images {
    pub open spec fn wf(&self) -> bool {
        &&& self.v@.len() == MAX_IMAGES
        &&& forall|i: int| 0 <= i < MAX_IMAGES ==> (#[trigger] self.v@[i]).name_len <= NAME_MAX
    }

    /// An empty registry.
    pub fn new() -> (m: Self)
        ensures
            m.wf(),
            forall|i: int| 0 <= i < MAX_IMAGES ==> !(#[trigger] m.v@[i]).in_use,
    {
        let mut v: Vec<ImageEntry> = Vec::new();
        let mut i: usize = 0;
        while i < MAX_IMAGES
            invariant
                i <= MAX_IMAGES,
                v@.len() == i,
                forall|k: int|
                    0 <= k < i ==> !(#[trigger] v@[k]).in_use && v@[k].name_len <= NAME_MAX,
            decreases MAX_IMAGES - i,
        {
            v.push(ImageEntry { in_use: false, name: [0u8; NAME_MAX], name_len: 0, data: &[] });
            i += 1;
        }
        Images { v }
    }
}

/// The lowest unused entry from `i` up.
pub open spec fn free_image_from(v: Seq<ImageEntry>, i: int) -> int
    decreases v.len() - i,
{
    if i >= v.len() || !v[i].in_use {
        i
    } else {
        free_image_from(v, i + 1)
    }
}

/// Whether another image can be registered.
pub fn has_room(m: &Images) -> (b: bool)
    requires
        m.wf(),
    ensures
        b == (free_image_from(m.v@, 0) < MAX_IMAGES),
{
    let mut i: usize = 0;
    while i < MAX_IMAGES
        invariant
            m.wf(),
            i <= MAX_IMAGES,
            free_image_from(m.v@, 0) == free_image_from(m.v@, i as int),
        decreases MAX_IMAGES - i,
    {
        if !m.v[i].in_use {
            return true;
        }
        i += 1;
    }
    false
}

/// `b` is `a` with an image registered under `name` at `idx`.
pub open spec fn registers(
    a: Images,
    b: Images,
    idx: int,
    name: Seq<u8>,
    data: Seq<u8>,
) -> bool {
    let e = b.v@[idx];
    &&& b.v@ == a.v@.update(idx, e)
    &&& e.in_use
    &&& e.label() == kept_name(name)
    &&& e.name@ == bytes::padded(name, NAME_MAX as nat)
    &&& e.data@ == data
}

/// Register an image under `name`; the registry must have room.
pub fn register(m: &mut Images, name: &[u8], data: &'static [u8]) -> (idx: u8)
    requires
        old(m).wf(),
        free_image_from(old(m).v@, 0) < MAX_IMAGES,
    ensures
        final(m).wf(),
        idx == free_image_from(old(m).v@, 0),
        idx < MAX_IMAGES,
        registers(*old(m), *final(m), idx as int, name@, data@),
{
    let mut i: usize = 0;
    while m.v[i].in_use
        invariant
            m.wf(),
            *m == *old(m),
            i < MAX_IMAGES,
            free_image_from(m.v@, 0) == free_image_from(m.v@, i as int),
            free_image_from(m.v@, 0) < MAX_IMAGES,
        decreases MAX_IMAGES - i,
    {
        assert(free_image_from(m.v@, i as int) == free_image_from(m.v@, i + 1));
        i += 1;
    }
    let n: usize = if name.len() < NAME_MAX {
        name.len()
    } else {
        NAME_MAX
    };
    let mut nb: [u8; NAME_MAX] = [0u8; NAME_MAX];
    copy_field(&mut nb, name);
    m.v[i] = ImageEntry { in_use: true, name: nb, name_len: n, data };
    assert(m.v@[i as int].label() =~= kept_name(name@));
    assert(m.v@ =~= old(m).v@.update(i as int, m.v@[i as int]));
    i as u8
}

/// Entry `e` is registered under `name`.
pub open spec fn is_named(e: ImageEntry, name: Seq<u8>) -> bool {
    e.in_use && e.label() == name
}

fn named(e: &ImageEntry, name: &[u8]) -> (b: bool)
    requires
        e.name_len <= NAME_MAX,
    ensures
        b == is_named(*e, name@),
{
    if !e.in_use || e.name_len != name.len() {
        return false;
    }
    let mut i: usize = 0;
    while i < name.len()
        invariant
            i <= name@.len(),
            e.name_len == name@.len(),
            e.name_len <= NAME_MAX,
            forall|k: int| 0 <= k < i ==> e.label()[k] == name@[k],
        decreases name@.len() - i,
    {
        assert(e.label()[i as int] == e.name@[i as int]);
        if e.name[i] != name[i] {
            return false;
        }
        i += 1;
    }
    assert(e.label() =~= name@);
    true
}

/// The first image from `i` up registered under `name`, or the end of the registry.
pub open spec fn named_from(v: Seq<ImageEntry>, name: Seq<u8>, i: int) -> int
    decreases v.len() - i,
{
    if i >= v.len() || is_named(v[i], name) {
        i
    } else {
        named_from(v, name, i + 1)
    }
}

/// The image registered under `name`, if there is one.
pub open spec fn lookup(v: Seq<ImageEntry>, name: Seq<u8>) -> Option<u8> {
    if named_from(v, name, 0) < v.len() {
        Some(named_from(v, name, 0) as u8)
    } else {
        None
    }
}

/// The first image registered under `name`.
pub fn find(m: &Images, name: &[u8]) -> (r: Option<u8>)
    requires
        m.wf(),
    ensures
        r == lookup(m.v@, name@),
{
    let mut i: usize = 0;
    while i < MAX_IMAGES
        invariant
            m.wf(),
            i <= MAX_IMAGES,
            named_from(m.v@, name@, 0) == named_from(m.v@, name@, i as int),
        decreases MAX_IMAGES - i,
    {
        if named(&m.v[i], name) {
            return Some(i as u8);
        }
        i += 1;
    }
    None
}

/// The bytes of image `idx`, if there is one.
pub fn bytes(m: &Images, idx: u8) -> (r: Option<&'static [u8]>)
    requires
        m.wf(),
    ensures
        match r {
            Some(b) => idx < MAX_IMAGES && m.v@[idx as int].in_use && b@ == m.v@[idx as int].data@,
            None => idx >= MAX_IMAGES || !m.v@[idx as int].in_use,
        },
{
    let i: usize = idx as usize;
    if i >= MAX_IMAGES || !m.v[i].in_use {
        return None;
    }
    Some(m.v[i].data)
}

/// The name field of image `idx`.
pub fn name(m: &Images, idx: u8) -> (n: [u8; NAME_MAX])
    requires
        m.wf(),
        idx < MAX_IMAGES,
    ensures
        n@ == m.v@[idx as int].name@,
{
    m.v[idx as usize].name
}

/// Length of the name of image `idx`.
pub fn name_len(m: &Images, idx: u8) -> (n: usize)
    requires
        m.wf(),
        idx < MAX_IMAGES,
    ensures
        n == m.v@[idx as int].name_len,
{
    m.v[idx as usize].name_len
}

/// An image is found under the name it was registered by, if that name is short enough
/// to be kept whole and no earlier image has it.
pub proof fn law_registered_is_found(v: Seq<ImageEntry>, i: int, e: ImageEntry, name: Seq<u8>)
    requires
        0 <= i < v.len() <= MAX_IMAGES,
        e.in_use,
        e.label() == kept_name(name),
        name.len() <= NAME_MAX,
        forall|k: int| 0 <= k < i ==> !is_named(#[trigger] v[k], name),
    ensures
        lookup(v.update(i, e), name) == Some(i as u8),
{
    lemma_named_from(v.update(i, e), name, 0, i);
}

proof fn lemma_named_from(v: Seq<ImageEntry>, name: Seq<u8>, j: int, i: int)
    requires
        0 <= j <= i < v.len(),
        is_named(v[i], name),
        forall|k: int| j <= k < i ==> !is_named(#[trigger] v[k], name),
    ensures
        named_from(v, name, j) == i,
    decreases i - j,
{
    if j < i {
        lemma_named_from(v, name, j + 1, i);
    }
}

} // verus!
