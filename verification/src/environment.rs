//! Lexical scopes: a store of frames, each with its bindings and the frame it
//! is nested in.
use vstd::prelude::*;
use crate::value::{Value, ValueV};

verus! {

/// The model of a frame: its bindings, in the order they were made, and its
/// parent frame.
#[verifier::ext_equal]
pub struct FrameV {
    pub binds: Seq<(Seq<char>, ValueV)>,
    pub parent: Option<nat>,
}

/// The index of the first binding of `name` at or after `i`.
pub open spec fn find_from(binds: Seq<(Seq<char>, ValueV)>, name: Seq<char>, i: int) -> Option<int>
    decreases binds.len() - i,
{
    if !(0 <= i < binds.len()) {
        None
    } else if binds[i].0 == name {
        Some(i)
    } else {
        find_from(binds, name, i + 1)
    }
}

/// The index of the binding of `name`, if the frame has one.
pub open spec fn find(binds: Seq<(Seq<char>, ValueV)>, name: Seq<char>) -> Option<int> {
    find_from(binds, name, 0)
}

/// The value bound to `name` in the frame itself.
pub open spec fn frame_get(f: FrameV, name: Seq<char>) -> Option<ValueV> {
    match find(f.binds, name) {
        Some(i) => Some(f.binds[i].1),
        None => None,
    }
}

/// The frame with `name` bound to `v` (replacing its binding, if any).
pub open spec fn frame_set(f: FrameV, name: Seq<char>, v: ValueV) -> FrameV {
    match find(f.binds, name) {
        Some(i) => FrameV { binds: f.binds.update(i, (name, v)), parent: f.parent },
        None => FrameV { binds: f.binds.push((name, v)), parent: f.parent },
    }
}

/// The value of `name` seen from frame `id`: its own binding, else the one
/// seen from its parent. (A parent always precedes its children.)
pub open spec fn env_get(frames: Seq<FrameV>, id: int, name: Seq<char>) -> Option<ValueV>
    decreases id,
{
    if !(0 <= id < frames.len()) {
        None
    } else {
        match frame_get(frames[id], name) {
            Some(v) => Some(v),
            None => match frames[id].parent {
                Some(p) => if p < id {
                    env_get(frames, p as int, name)
                } else {
                    None
                },
                None => None,
            },
        }
    }
}

/// The frames after binding `name` to `v` in frame `id` itself (`let`).
pub open spec fn env_set(frames: Seq<FrameV>, id: int, name: Seq<char>, v: ValueV) -> Seq<FrameV> {
    if 0 <= id < frames.len() {
        frames.update(id, frame_set(frames[id], name, v))
    } else {
        frames
    }
}

/// The frames after assigning `v` to the binding of `name` seen from frame
/// `id`, or `None` when no frame on the way binds `name`.
pub open spec fn env_assign(frames: Seq<FrameV>, id: int, name: Seq<char>, v: ValueV) -> Option<
    Seq<FrameV>,
>
    decreases id,
{
    if !(0 <= id < frames.len()) {
        None
    } else if find(frames[id].binds, name) is Some {
        Some(env_set(frames, id, name, v))
    } else {
        match frames[id].parent {
            Some(p) => if p < id {
                env_assign(frames, p as int, name, v)
            } else {
                None
            },
            None => None,
        }
    }
}

/// The frames with a new, empty frame (at index `frames.len()`) nested in `parent`.
pub open spec fn env_new_frame(frames: Seq<FrameV>, parent: Option<nat>) -> Seq<FrameV> {
    frames.push(FrameV { binds: Seq::empty(), parent })
}

pub proof fn lemma_find_from(binds: Seq<(Seq<char>, ValueV)>, name: Seq<char>, i: int)
    requires
        0 <= i,
    ensures
        find_from(binds, name, i) matches Some(j) ==> i <= j < binds.len() && binds[j].0 == name
            && forall|k: int| i <= k < j ==> #[trigger] binds[k].0 != name,
        find_from(binds, name, i) is None ==> forall|j: int|
            i <= j < binds.len() ==> #[trigger] binds[j].0 != name,
    decreases binds.len() - i,
{
    if 0 <= i < binds.len() && binds[i].0 != name {
        lemma_find_from(binds, name, i + 1);
    }
}

/// `find_from` gives the first match at or after `i`.
pub proof fn lemma_find_from_char(binds: Seq<(Seq<char>, ValueV)>, name: Seq<char>, i: int, r: Option<int>)
    requires
        0 <= i,
        match r {
            Some(j) => i <= j < binds.len() && binds[j].0 == name && forall|k: int|
                i <= k < j ==> #[trigger] binds[k].0 != name,
            None => forall|k: int| i <= k < binds.len() ==> #[trigger] binds[k].0 != name,
        },
    ensures
        find_from(binds, name, i) == r,
    decreases binds.len() - i,
{
    if 0 <= i < binds.len() && binds[i].0 != name {
        lemma_find_from_char(binds, name, i + 1, r);
    }
}

/// After `frame_set`, the frame binds `name` to `v` and every other name as before.
pub proof fn lemma_frame_set(f: FrameV, name: Seq<char>, v: ValueV, other: Seq<char>)
    ensures
        frame_get(frame_set(f, name, v), name) == Some(v),
        other != name ==> frame_get(frame_set(f, name, v), other) == frame_get(f, other),
        frame_set(f, name, v).parent == f.parent,
{
    lemma_find_from(f.binds, name, 0);
    lemma_find_from(f.binds, other, 0);
    let g = frame_set(f, name, v);
    match find(f.binds, name) {
        Some(i) => {
            lemma_find_from_char(g.binds, name, 0, Some(i));
            if other != name {
                lemma_find_from_char(g.binds, other, 0, find(f.binds, other));
            }
        },
        None => {
            lemma_find_from_char(g.binds, name, 0, Some(f.binds.len() as int));
            if other != name {
                lemma_find_from_char(g.binds, other, 0, find(f.binds, other));
            }
        },
    }
}

/// No name is bound twice in `binds`: the bindings form a map.
pub open spec fn unique_names(binds: Seq<(Seq<char>, ValueV)>) -> bool {
    forall|i: int, j: int| 0 <= i < j < binds.len() ==> #[trigger] binds[i].0 != #[trigger] binds[j].0
}

/// Law: a `let` binding keeps a frame's bindings a map.
pub proof fn law_frame_set_unique(f: FrameV, name: Seq<char>, v: ValueV)
    requires
        unique_names(f.binds),
    ensures
        unique_names(frame_set(f, name, v).binds),
{
    lemma_find_from(f.binds, name, 0);
    let g = frame_set(f, name, v).binds;
    assert forall|i: int, j: int| 0 <= i < j < g.len() implies #[trigger] g[i].0 != #[trigger] g[j].0 by {
        match find(f.binds, name) {
            Some(k) => {
                if i == k {
                    assert(f.binds[k].0 == name);
                } else if j == k {
                    assert(f.binds[k].0 == name);
                }
                assert(g[i].0 == f.binds[i].0);
                assert(g[j].0 == f.binds[j].0);
            },
            None => {
                if j == f.binds.len() {
                    assert(g[i] == f.binds[i]);
                } else {
                    assert(g[i] == f.binds[i]);
                    assert(g[j] == f.binds[j]);
                }
            },
        }
    }
}

// ---------------------------------------------------------------------------
// Laws of scopes
// ---------------------------------------------------------------------------

/// A `let` binding is what a lookup from the same frame sees next.
pub proof fn law_get_after_set(frames: Seq<FrameV>, id: int, name: Seq<char>, v: ValueV)
    requires
        0 <= id < frames.len(),
    ensures
        env_get(env_set(frames, id, name, v), id, name) == Some(v),
{
    lemma_frame_set(frames[id], name, v, name);
}

/// A `let` binding of one name changes no lookup of another name, from any frame.
pub proof fn law_set_keeps_other_names(
    frames: Seq<FrameV>,
    id: int,
    name: Seq<char>,
    v: ValueV,
    j: int,
    other: Seq<char>,
)
    requires
        other != name,
    ensures
        env_get(env_set(frames, id, name, v), j, other) == env_get(frames, j, other),
    decreases j,
{
    let g = env_set(frames, id, name, v);
    if 0 <= j < frames.len() {
        if 0 <= id < frames.len() {
            lemma_frame_set(frames[id], name, v, other);
        }
        assert(g[j].parent == frames[j].parent) by {
            if 0 <= id < frames.len() {
                lemma_frame_set(frames[id], name, v, other);
            }
        }
        assert(frame_get(g[j], other) == frame_get(frames[j], other));
        match frames[j].parent {
            Some(p) => if p < j {
                law_set_keeps_other_names(frames, id, name, v, p as int, other);
            },
            None => {},
        }
    }
}

/// An assignment succeeds exactly when the name is visible from the frame.
pub proof fn law_assign_iff_visible(frames: Seq<FrameV>, id: int, name: Seq<char>, v: ValueV)
    ensures
        env_assign(frames, id, name, v) is Some <==> env_get(frames, id, name) is Some,
    decreases id,
{
    if 0 <= id < frames.len() {
        if find(frames[id].binds, name) is None {
            match frames[id].parent {
                Some(p) => if p < id {
                    law_assign_iff_visible(frames, p as int, name, v);
                },
                None => {},
            }
        }
    }
}

/// After an assignment, the name is seen from the frame with the new value.
pub proof fn law_get_after_assign(frames: Seq<FrameV>, id: int, name: Seq<char>, v: ValueV)
    requires
        env_assign(frames, id, name, v) is Some,
    ensures
        env_get(env_assign(frames, id, name, v)->0, id, name) == Some(v),
    decreases id,
{
    if find(frames[id].binds, name) is Some {
        law_get_after_set(frames, id, name, v);
    } else {
        let p = frames[id].parent->0 as int;
        law_get_after_assign(frames, p, name, v);
        let g = env_assign(frames, id, name, v)->0;
        lemma_assign_keeps_shape(frames, p, name, v);
        lemma_assign_only_deeper(frames, p, name, v, id);
    }
}

/// The first frame on the chain from `id` up through the parents that binds
/// `name`.
pub open spec fn binder(frames: Seq<FrameV>, id: int, name: Seq<char>) -> Option<int>
    decreases id,
{
    if !(0 <= id < frames.len()) {
        None
    } else if find(frames[id].binds, name) is Some {
        Some(id)
    } else {
        match frames[id].parent {
            Some(p) => if p < id {
                binder(frames, p as int, name)
            } else {
                None
            },
            None => None,
        }
    }
}

/// Law: an assignment changes only the binding of `name` in the first frame
/// on the chain that binds it (the one a lookup sees), in place, and adds no
/// binding anywhere; when no frame on the chain binds `name`, it fails and
/// changes nothing.
pub proof fn law_assign_changes_only_the_binding_seen(frames: Seq<FrameV>, id: int, name: Seq<char>, v: ValueV)
    ensures
        binder(frames, id, name) matches Some(j) ==> {
            let k = find(frames[j].binds, name)->0;
            &&& 0 <= j < frames.len()
            &&& 0 <= k < frames[j].binds.len()
            &&& env_get(frames, id, name) == Some(frames[j].binds[k].1)
            &&& env_assign(frames, id, name, v) == Some(
                frames.update(j, FrameV { binds: frames[j].binds.update(k, (name, v)), parent: frames[j].parent }),
            )
        },
        binder(frames, id, name) is None ==> env_assign(frames, id, name, v) is None,
    decreases id,
{
    if 0 <= id < frames.len() {
        lemma_find_from(frames[id].binds, name, 0);
        if find(frames[id].binds, name) is None {
            match frames[id].parent {
                Some(p) => if p < id {
                    law_assign_changes_only_the_binding_seen(frames, p as int, name, v);
                },
                None => {},
            }
        }
    }
}

/// Law: a frame that does not bind `name` itself sees its parent's binding
/// of `name` as it is now (not as it was when the frame was made).
pub proof fn law_child_sees_parent_now(frames: Seq<FrameV>, c: int, p: nat, name: Seq<char>)
    requires
        0 <= c < frames.len(),
        frames[c].parent == Some(p),
        p < c,
        frame_get(frames[c], name) is None,
    ensures
        env_get(frames, c, name) == env_get(frames, p as int, name),
{
}

/// Assignment keeps the number of frames and every frame's parent.
pub proof fn lemma_assign_keeps_shape(frames: Seq<FrameV>, id: int, name: Seq<char>, v: ValueV)
    requires
        env_assign(frames, id, name, v) is Some,
    ensures
        env_assign(frames, id, name, v)->0.len() == frames.len(),
        forall|k: int|
            0 <= k < frames.len() ==> (#[trigger] env_assign(frames, id, name, v)->0[k]).parent
                == frames[k].parent,
    decreases id,
{
    if find(frames[id].binds, name) is Some {
        assert forall|k: int| 0 <= k < frames.len() implies (#[trigger] env_assign(
            frames,
            id,
            name,
            v,
        )->0[k]).parent == frames[k].parent by {
            lemma_frame_set(frames[id], name, v, name);
        }
    } else {
        lemma_assign_keeps_shape(frames, frames[id].parent->0 as int, name, v);
    }
}

/// Assignment starting from frame `id` changes only frames up to `id`, and
/// frame `k` above `id` (one that does not bind the name) keeps its bindings.
pub proof fn lemma_assign_only_deeper(frames: Seq<FrameV>, id: int, name: Seq<char>, v: ValueV, k: int)
    requires
        env_assign(frames, id, name, v) is Some,
        id < k < frames.len(),
    ensures
        env_assign(frames, id, name, v)->0[k] == frames[k],
    decreases id,
{
    if find(frames[id].binds, name) is None {
        lemma_assign_only_deeper(frames, frames[id].parent->0 as int, name, v, k);
    }
}

/// A new frame sees what its parent sees, and no existing lookup changes.
pub proof fn law_new_frame_sees_parent(frames: Seq<FrameV>, parent: nat, name: Seq<char>, j: int)
    requires
        parent < frames.len(),
        0 <= j < frames.len(),
    ensures
        env_get(env_new_frame(frames, Some(parent)), frames.len() as int, name) == env_get(
            frames,
            parent as int,
            name,
        ),
        env_get(env_new_frame(frames, Some(parent)), j, name) == env_get(frames, j, name),
{
    let g = env_new_frame(frames, Some(parent));
    lemma_find_from_char(g[frames.len() as int].binds, name, 0, None);
    lemma_new_frame_keeps(frames, Some(parent), parent as int, name);
    lemma_new_frame_keeps(frames, Some(parent), j, name);
}

/// Adding a frame changes no lookup from an existing frame.
pub proof fn lemma_new_frame_keeps(frames: Seq<FrameV>, parent: Option<nat>, j: int, name: Seq<char>)
    requires
        0 <= j < frames.len(),
    ensures
        env_get(env_new_frame(frames, parent), j, name) == env_get(frames, j, name),
    decreases j,
{
    match frames[j].parent {
        Some(p) => if p < j {
            lemma_new_frame_keeps(frames, parent, p as int, name);
        },
        None => {},
    }
}

struct Binding {
    name: String,
    value: Value,
}

struct Frame {
    bindings: Vec<Binding>,
    parent: Option<usize>,
}

/// A scoped variable store: frames with their parent chain, for lexical
/// scoping and closures. Frame 0 is the global scope.
pub struct Environment {
    frames: Vec<Frame>,
}

spec fn binding_view(b: Binding) -> (Seq<char>, ValueV) {
    (b.name@, b.value@)
}

spec fn frame_view(f: Frame) -> FrameV {
    FrameV {
        binds: Seq::new(f.bindings@.len(), |i: int| binding_view(f.bindings@[i])),
        parent: match f.parent {
            Some(p) => Some(p as nat),
            None => None,
        },
    }
}

impl View for Environment {
    type V = Seq<FrameV>;

    closed spec fn view(&self) -> Seq<FrameV> {
        Seq::new(self.frames@.len(), |i: int| frame_view(self.frames@[i]))
    }
}

proof fn lemma_frame_view(f: Frame)
    ensures
        frame_view(f).binds.len() == f.bindings@.len(),
        forall|i: int|
            0 <= i < f.bindings@.len() ==> #[trigger] frame_view(f).binds[i] == (
                f.bindings@[i].name@,
                f.bindings@[i].value@,
            ),
{
}

impl Environment {
    proof fn lemma_view(&self)
        ensures
            self@.len() == self.frames@.len(),
            forall|i: int| 0 <= i < self.frames@.len() ==> #[trigger] self@[i] == frame_view(self.frames@[i]),
    {
    }

    /// A store holding only the empty global frame.
    pub fn new() -> (r: Self)
        ensures
            r@ == env_new_frame(Seq::empty(), None),
    {
        let mut frames: Vec<Frame> = Vec::new();
        frames.push(Frame { bindings: Vec::new(), parent: None });
        let r = Environment { frames };
        proof {
            r.lemma_view();
        }
        assert(r@.len() == 1);
        assert(r@[0].parent == None::<nat>);
        assert(r@[0].binds =~= Seq::empty());
        assert(r@ =~~= env_new_frame(Seq::empty(), None));
        r
    }

    /// The number of frames.
    pub fn len(&self) -> (r: usize)
        ensures
            r == self@.len(),
    {
        self.frames.len()
    }

    /// Adds an empty frame nested in `parent` and gives its index.
    pub fn new_child(&mut self, parent: usize) -> (r: usize)
        ensures
            r == old(self)@.len(),
            final(self)@ == env_new_frame(old(self)@, Some(parent as nat)),
    {
        let r = self.frames.len();
        self.frames.push(Frame { bindings: Vec::new(), parent: Some(parent) });
        proof {
            self.lemma_view();
            old(self).lemma_view();
            lemma_frame_view(self.frames@[r as int]);
        }
        assert(self@[r as int].binds =~= Seq::empty());
        assert(self@ =~~= env_new_frame(old(self)@, Some(parent as nat)));
        r
    }

    /// The position of `name` among the bindings of frame `id`.
    fn find_in(&self, id: usize, name: &String) -> (r: Option<usize>)
        requires
            id < self@.len(),
        ensures
            match find(self@[id as int].binds, name@) {
                Some(i) => r matches Some(k) && k as int == i,
                None => r is None,
            },
    {
        proof {
            self.lemma_view();
        }
        let f = &self.frames[id];
        let ghost binds = self@[id as int].binds;
        proof {
            lemma_frame_view(*f);
        }
        let mut i: usize = 0;
        while i < f.bindings.len()
            invariant
                binds == self@[id as int].binds,
                binds == frame_view(*f).binds,
                binds.len() == f.bindings@.len(),
                forall|j: int|
                    0 <= j < f.bindings@.len() ==> #[trigger] binds[j] == (
                        f.bindings@[j].name@,
                        f.bindings@[j].value@,
                    ),
                i <= f.bindings@.len(),
                find(binds, name@) == find_from(binds, name@, i as int),
            decreases f.bindings@.len() - i,
        {
            if f.bindings[i].name == *name {
                return Some(i);
            }
            i = i + 1;
        }
        None
    }

    /// The value of `name` seen from frame `id`, walking up the parent chain.
    pub fn get(&self, id: usize, name: &String) -> (r: Option<Value>)
        ensures
            match env_get(self@, id as int, name@) {
                Some(v) => r matches Some(x) && x@ == v,
                None => r is None,
            },
        decreases id,
    {
        if id >= self.frames.len() {
            return None;
        }
        proof {
            self.lemma_view();
            lemma_frame_view(self.frames@[id as int]);
            lemma_find_from(self@[id as int].binds, name@, 0);
        }
        match self.find_in(id, name) {
            Some(i) => Some(self.frames[id].bindings[i].value.duplicate()),
            None => match self.frames[id].parent {
                Some(p) => if p < id {
                    self.get(p, name)
                } else {
                    None
                },
                None => None,
            },
        }
    }

    /// Binds `name` to `val` in frame `id` itself (for `let` bindings).
    pub fn set(&mut self, id: usize, name: &String, val: Value)
        ensures
            final(self)@ == env_set(old(self)@, id as int, name@, val@),
    {
        if id >= self.frames.len() {
            return;
        }
        proof {
            self.lemma_view();
            lemma_frame_view(self.frames@[id as int]);
            lemma_find_from(self@[id as int].binds, name@, 0);
        }
        let found = self.find_in(id, name);
        let ghost f0 = self.frames@[id as int];
        let mut frame = Frame { bindings: Vec::new(), parent: None };
        std::mem::swap(&mut frame, &mut self.frames[id]);
        assert(frame == f0);
        let ghost vv = val@;
        match found {
            Some(i) => {
                let mut b = Binding { name: String::new(), value: Value::Null };
                std::mem::swap(&mut b, &mut frame.bindings[i]);
                b.value = val;
                frame.bindings.set(i, b);
                proof {
                    lemma_frame_view(frame);
                    lemma_frame_view(f0);
                }
                assert(frame_view(frame).binds =~~= frame_view(f0).binds.update(i as int, (name@, vv)));

            },
            None => {
                frame.bindings.push(Binding { name: name.clone(), value: val });
                proof {
                    lemma_frame_view(frame);
                    lemma_frame_view(f0);
                }
                assert(frame_view(frame).binds =~~= frame_view(f0).binds.push((name@, vv)));
            },
        }
        assert(frame_view(frame) =~~= frame_set(frame_view(f0), name@, vv));
        self.frames.set(id, frame);
        proof {
            self.lemma_view();
            lemma_frame_view(self.frames@[id as int]);
        }
        assert(self@[id as int] =~~= frame_set(old(self)@[id as int], name@, val@));
        assert(self@ =~~= env_set(old(self)@, id as int, name@, val@));
    }

    /// Assigns `val` to the binding of `name` seen from frame `id`; false when
    /// no frame on the way binds `name`.
    pub fn assign(&mut self, id: usize, name: &String, val: Value) -> (r: bool)
        ensures
            match env_assign(old(self)@, id as int, name@, val@) {
                Some(f) => r && final(self)@ == f,
                None => !r && final(self)@ == old(self)@,
            },
        decreases id,
    {
        if id >= self.frames.len() {
            return false;
        }
        if self.find_in(id, name).is_some() {
            self.set(id, name, val);
            true
        } else {
            match self.frames[id].parent {
                Some(p) => if p < id {
                    self.assign(p, name, val)
                } else {
                    false
                },
                None => false,
            }
        }
    }
}

} // verus!
