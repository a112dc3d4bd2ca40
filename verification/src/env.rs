//! Chained, mutable symbol tables with lexical scoping.
//!
//! Frames form a singly linked chain rooted at the frame holding the
//! builtins. A frame is shared: many closures and child frames may refer to
//! it, and a binding added through one holder is visible to every other. To
//! make that sharing checkable, `Env` is an arena: it owns every frame, and
//! a frame is named by its index. A frame's parent always has a smaller
//! index, so lookup terminates. The same arena owns the atom cells and the
//! buffered output of the printing builtins.

use vstd::prelude::*;

use crate::types::{strings_view, val_wf, val_view, vals_view, ValM, Value};
use crate::types::{lemma_vals_view_index, lemma_vals_view_len};
use crate::evaluator::RuntimeError;

verus! {

/// One level of the symbol table: bindings plus a link to the parent frame.
/// Bindings are kept append-only; a later binding for a name shadows an
/// earlier one.
pub struct Frame {
    pub entries: Vec<(String, Value)>,
    pub parent: Option<usize>,
}

/// Mathematical mirror of `Frame`: a map from names to values.
pub ghost struct FrameM {
    pub map: Map<Seq<char>, ValM>,
    pub parent: Option<int>,
}

/// Mathematical mirror of `Env`.
pub ghost struct EnvM {
    pub frames: Seq<FrameM>,
    pub cells: Seq<ValM>,
    pub output: Seq<Seq<char>>,
}

pub open spec fn entries_view(s: Seq<(String, Value)>) -> Seq<(Seq<char>, ValM)>
    decreases s,
{
    if s.len() == 0 {
        Seq::empty()
    } else {
        entries_view(s.drop_last()).push((s.last().0@, val_view(s.last().1)))
    }
}

/// The map an association list denotes: a later entry wins over an earlier
/// one with the same name.
pub open spec fn assoc_map(s: Seq<(Seq<char>, ValM)>) -> Map<Seq<char>, ValM>
    decreases s,
{
    if s.len() == 0 {
        Map::empty()
    } else {
        assoc_map(s.drop_last()).insert(s.last().0, s.last().1)
    }
}

pub open spec fn frame_view(f: Frame) -> FrameM {
    FrameM {
        map: assoc_map(entries_view(f.entries@)),
        parent: match f.parent {
            Some(p) => Some(p as int),
            None => None,
        },
    }
}

impl View for Frame {
    type V = FrameM;

    open spec fn view(&self) -> FrameM {
        frame_view(*self)
    }
}

pub open spec fn frames_view(s: Seq<Frame>) -> Seq<FrameM>
    decreases s,
{
    if s.len() == 0 {
        Seq::empty()
    } else {
        frames_view(s.drop_last()).push(frame_view(s.last()))
    }
}

pub broadcast proof fn lemma_frames_view_len(s: Seq<Frame>)
    ensures
        #[trigger] frames_view(s).len() == s.len(),
    decreases s,
{
    if s.len() > 0 {
        lemma_frames_view_len(s.drop_last());
    }
}

pub broadcast proof fn lemma_frames_view_index(s: Seq<Frame>, i: int)
    requires
        0 <= i < s.len(),
    ensures
        #[trigger] frames_view(s)[i] == s[i]@,
    decreases s,
{
    lemma_frames_view_len(s);
    if i < s.len() - 1 {
        lemma_frames_view_index(s.drop_last(), i);
        lemma_frames_view_len(s.drop_last());
    }
}

/// `frames_view` commutes with updating one element.
pub proof fn lemma_frames_view_update(s: Seq<Frame>, i: int, f: Frame)
    requires
        0 <= i < s.len(),
    ensures
        frames_view(s.update(i, f)) == frames_view(s).update(i, frame_view(f)),
{
    lemma_frames_view_len(s);
    lemma_frames_view_len(s.update(i, f));
    assert forall|j: int| 0 <= j < s.len() implies frames_view(s.update(i, f))[j] == frames_view(
        s,
    ).update(i, frame_view(f))[j] by {
        lemma_frames_view_index(s.update(i, f), j);
        if j != i {
            lemma_frames_view_index(s, j);
        }
    }
    assert(frames_view(s.update(i, f)) =~= frames_view(s).update(i, frame_view(f)));
}

/// Resolution of `name` starting at frame `fr`: the local map first, then
/// the parent chain. `None` only when no frame in the chain binds `name`.
pub open spec fn lookup_chain(frames: Seq<FrameM>, fr: int, name: Seq<char>) -> Option<ValM>
    decreases fr,
{
    if !(0 <= fr < frames.len()) {
        None
    } else if frames[fr].map.contains_key(name) {
        Some(frames[fr].map[name])
    } else {
        match frames[fr].parent {
            Some(p) => if 0 <= p < fr {
                lookup_chain(frames, p, name)
            } else {
                None
            },
            None => None,
        }
    }
}

/// Every frame's parent comes before it, and every value stored anywhere in
/// the arena is well formed with respect to the arena itself.
pub open spec fn env_wf(e: EnvM) -> bool {
    &&& forall|i: int|
        0 <= i < e.frames.len() ==> match (#[trigger] e.frames[i]).parent {
            Some(p) => 0 <= p < i,
            None => true,
        }
    &&& forall|i: int, k: Seq<char>|
        0 <= i < e.frames.len() && (#[trigger] e.frames[i].map.contains_key(k)) ==> val_wf(
            e.frames[i].map[k],
            e.frames.len() as int,
            e.cells.len() as int,
        )
    &&& forall|i: int|
        0 <= i < e.cells.len() ==> val_wf(
            #[trigger] e.cells[i],
            e.frames.len() as int,
            e.cells.len() as int,
        )
}

/// Evaluation may add frames and cells and append output, but never removes
/// any, and never changes a frame's parent.
pub open spec fn env_extends(pre: EnvM, post: EnvM) -> bool {
    &&& pre.frames.len() <= post.frames.len()
    &&& pre.cells.len() <= post.cells.len()
    &&& forall|i: int|
        0 <= i < pre.frames.len() ==> (#[trigger] post.frames[i]).parent == pre.frames[i].parent
}

/// The environment arena: every frame, every atom cell, and the output
/// buffered by the printing builtins.
pub struct Env {
    pub frames: Vec<Frame>,
    pub cells: Vec<Value>,
    pub output: Vec<String>,
}

impl View for Env {
    type V = EnvM;

    open spec fn view(&self) -> EnvM {
        EnvM {
            frames: frames_view(self.frames@),
            cells: vals_view(self.cells@),
            output: strings_view(self.output@),
        }
    }
}

/// Bindings of one frame, looked up from the newest entry backwards.
#[verifier::loop_isolation(false)]
fn frame_get<'a>(f: &'a Frame, name: &str) -> (r: Option<&'a Value>)
    ensures
        match r {
            Some(v) => f@.map.contains_key(name@) && f@.map[name@] == v@,
            None => !f@.map.contains_key(name@),
        },
{
    let name_s: String = name.to_owned();
    let mut j: usize = f.entries.len();
    let ghost pv = entries_view(f.entries@);
    proof {
        lemma_entries_view_len(f.entries@);
        assert(pv.take(f.entries@.len() as int) =~= pv);
    }
    while j > 0
        invariant
            0 <= j <= f.entries.len(),
            assoc_map(pv).contains_key(name@) == assoc_map(pv.take(j as int)).contains_key(name@),
            assoc_map(pv).contains_key(name@) ==> assoc_map(pv)[name@] == assoc_map(
                pv.take(j as int),
            )[name@],
        decreases j,
    {
        proof {
            lemma_entries_view_index(f.entries@, j - 1);
            assert(pv.take(j as int).drop_last() =~= pv.take(j - 1));
            assert(pv.take(j as int).last() == pv[j - 1]);
        }
        if f.entries[j - 1].0 == name_s {
            return Some(&f.entries[j - 1].1);
        }
        j = j - 1;
    }
    proof {
        assert(pv.take(0int) =~= Seq::<(Seq<char>, ValM)>::empty());
    }
    None
}

pub broadcast proof fn lemma_entries_view_len(s: Seq<(String, Value)>)
    ensures
        #[trigger] entries_view(s).len() == s.len(),
    decreases s,
{
    if s.len() > 0 {
        lemma_entries_view_len(s.drop_last());
    }
}

pub broadcast proof fn lemma_entries_view_index(s: Seq<(String, Value)>, i: int)
    requires
        0 <= i < s.len(),
    ensures
        #[trigger] entries_view(s)[i] == (s[i].0@, val_view(s[i].1)),
    decreases s,
{
    lemma_entries_view_len(s);
    if i < s.len() - 1 {
        lemma_entries_view_index(s.drop_last(), i);
        lemma_entries_view_len(s.drop_last());
    }
}

impl Env {
    /// The arena is well formed.
    pub open spec fn wf(&self) -> bool {
        env_wf(self@)
    }

    /// An empty arena holding one root frame with the given bindings.
    pub fn with_map(map: Vec<(String, Value)>) -> (r: Env)
        requires
            forall|i: int|
                0 <= i < map@.len() ==> val_wf(val_view((#[trigger] map@[i]).1), 1, 0),
        ensures
            r.wf(),
            r@.frames.len() == 1,
            r@.frames[0].parent is None,
            r@.frames[0].map == assoc_map(entries_view(map@)),
            r@.cells == Seq::<ValM>::empty(),
            r@.output == Seq::<Seq<char>>::empty(),
    {
        let ghost entries0 = map@;
        let frame = Frame { entries: map, parent: None };
        let ghost fv = frame_view(frame);
        let mut frames: Vec<Frame> = Vec::new();
        frames.push(frame);
        let r = Env { frames, cells: Vec::new(), output: Vec::new() };
        proof {
            assert(r.frames@.drop_last() =~= Seq::<Frame>::empty());
            assert(frames_view(Seq::<Frame>::empty()) =~= Seq::<FrameM>::empty());
            assert(r@.frames == Seq::<FrameM>::empty().push(fv));
            assert(r@.frames[0] == fv);
            assert(vals_view(Seq::<Value>::empty()) =~= Seq::<ValM>::empty());
            assert(strings_view(Seq::<String>::empty()) =~= Seq::<Seq<char>>::empty());
            lemma_assoc_entries_wf(entries0, 1, 0);
        }
        r
    }

    /// Allocates a new root frame, with no parent; returns its index.
    pub fn create_root_frame(&mut self) -> (fr: usize)
        requires
            old(self).wf(),
        ensures
            final(self).wf(),
            fr == old(self)@.frames.len(),
            final(self)@.frames == old(self)@.frames.push(
                FrameM { map: Map::empty(), parent: None },
            ),
            final(self)@.cells == old(self)@.cells,
            final(self)@.output == old(self)@.output,
            env_extends(old(self)@, final(self)@),
    {
        proof {
            lemma_frames_view_len(self.frames@);
        }
        let fr = self.frames.len();
        let frame = Frame { entries: Vec::new(), parent: None };
        proof {
            assert(entries_view(frame.entries@) =~= Seq::<(Seq<char>, ValM)>::empty());
            assert(frame_view(frame).map =~= Map::<Seq<char>, ValM>::empty());
        }
        self.frames.push(frame);
        proof {
            assert(self.frames@.drop_last() =~= old(self).frames@);
            lemma_frames_view_len(self.frames@);
            let pre = old(self)@;
            let post = self@;
            assert forall|i: int, k: Seq<char>|
                0 <= i < post.frames.len() && (#[trigger] post.frames[i].map.contains_key(
                    k,
                )) implies val_wf(post.frames[i].map[k], post.frames.len() as int,
                post.cells.len() as int) by {
                if i < pre.frames.len() {
                    crate::types::lemma_val_wf_grow(
                        pre.frames[i].map[k],
                        pre.frames.len() as int,
                        pre.cells.len() as int,
                        post.frames.len() as int,
                        post.cells.len() as int,
                    );
                }
            }
            assert forall|i: int| 0 <= i < post.cells.len() implies val_wf(
                #[trigger] post.cells[i],
                post.frames.len() as int,
                post.cells.len() as int,
            ) by {
                crate::types::lemma_val_wf_grow(
                    post.cells[i],
                    pre.frames.len() as int,
                    pre.cells.len() as int,
                    post.frames.len() as int,
                    post.cells.len() as int,
                );
            }
        }
        fr
    }

    /// One root frame holding every builtin.
    pub fn with_core_functions() -> (r: Env)
        ensures
            r.wf(),
            r@.frames.len() == 1,
            r@.frames[0].parent is None,
            r@.frames[0].map == crate::builtins::core_bindings(Map::empty()),
            r@.cells == Seq::<ValM>::empty(),
            r@.output == Seq::<Seq<char>>::empty(),
    {
        let mut env = Env::with_map(Vec::new());
        proof {
            assert(entries_view(Seq::<(String, Value)>::empty()) =~= Seq::<(Seq<char>, ValM)>::empty());
            assert(env@.frames[0].map =~= Map::<Seq<char>, ValM>::empty());
        }
        crate::builtins::insert_core_functions(&mut env, 0);
        env
    }

    /// Allocates a new frame whose parent is `parent`; returns its index.
    pub fn create_child_env(&mut self, parent: usize) -> (fr: usize)
        requires
            old(self).wf(),
            parent < old(self)@.frames.len(),
        ensures
            final(self).wf(),
            fr == old(self)@.frames.len(),
            final(self)@.frames == old(self)@.frames.push(
                FrameM { map: Map::empty(), parent: Some(parent as int) },
            ),
            final(self)@.cells == old(self)@.cells,
            final(self)@.output == old(self)@.output,
            env_extends(old(self)@, final(self)@),
    {
        proof {
            lemma_frames_view_len(self.frames@);
        }
        let fr = self.frames.len();
        let frame = Frame { entries: Vec::new(), parent: Some(parent) };
        proof {
            assert(entries_view(frame.entries@) =~= Seq::<(Seq<char>, ValM)>::empty());
            assert(frame_view(frame).map =~= Map::<Seq<char>, ValM>::empty());
        }
        self.frames.push(frame);
        proof {
            assert(self.frames@.drop_last() =~= old(self).frames@);
            lemma_frames_view_len(self.frames@);
            let pre = old(self)@;
            let post = self@;
            assert forall|i: int, k: Seq<char>|
                0 <= i < post.frames.len() && (#[trigger] post.frames[i].map.contains_key(
                    k,
                )) implies val_wf(post.frames[i].map[k], post.frames.len() as int,
                post.cells.len() as int) by {
                if i < pre.frames.len() {
                    crate::types::lemma_val_wf_grow(
                        pre.frames[i].map[k],
                        pre.frames.len() as int,
                        pre.cells.len() as int,
                        post.frames.len() as int,
                        post.cells.len() as int,
                    );
                }
            }
            assert forall|i: int| 0 <= i < post.cells.len() implies val_wf(
                #[trigger] post.cells[i],
                post.frames.len() as int,
                post.cells.len() as int,
            ) by {
                crate::types::lemma_val_wf_grow(
                    post.cells[i],
                    pre.frames.len() as int,
                    pre.cells.len() as int,
                    post.frames.len() as int,
                    post.cells.len() as int,
                );
            }
        }
        fr
    }

    /// Inserts (or overwrites) a binding in the local frame `fr` only.
    pub fn insert(&mut self, fr: usize, name: String, val: Value)
        requires
            old(self).wf(),
            fr < old(self)@.frames.len(),
            val_wf(val@, old(self)@.frames.len() as int, old(self)@.cells.len() as int),
        ensures
            final(self).wf(),
            final(self)@.frames == old(self)@.frames.update(
                fr as int,
                FrameM {
                    map: old(self)@.frames[fr as int].map.insert(name@, val@),
                    parent: old(self)@.frames[fr as int].parent,
                },
            ),
            final(self)@.cells == old(self)@.cells,
            final(self)@.output == old(self)@.output,
            env_extends(old(self)@, final(self)@),
    {
        proof {
            lemma_frames_view_len(self.frames@);
            lemma_frames_view_index(self.frames@, fr as int);
        }
        let ghost old_frames = self.frames@;
        let ghost nm = name@;
        let ghost vv = val@;
        let frame = &mut self.frames[fr];
        let ghost old_entries = frame.entries@;
        frame.entries.push((name, val));
        proof {
            assert(frame.entries@.drop_last() =~= old_entries);
            lemma_entries_view_len(old_entries);
            assert(entries_view(frame.entries@) == entries_view(old_entries).push((nm, vv)));
            assert(entries_view(frame.entries@).drop_last() =~= entries_view(old_entries));
            assert(entries_view(frame.entries@).last() == (nm, vv));
            assert(frame@.map == assoc_map(entries_view(old_entries)).insert(nm, vv));
            lemma_frames_view_update(old_frames, fr as int, *frame);
            assert(self@.frames == old(self)@.frames.update(
                fr as int,
                FrameM {
                    map: old(self)@.frames[fr as int].map.insert(nm, vv),
                    parent: old(self)@.frames[fr as int].parent,
                },
            ));
            let pre = old(self)@;
            let post = self@;
            assert forall|i: int, k: Seq<char>|
                0 <= i < post.frames.len() && (#[trigger] post.frames[i].map.contains_key(
                    k,
                )) implies val_wf(post.frames[i].map[k], post.frames.len() as int,
                post.cells.len() as int) by {
                if i == fr as int && k == nm {
                } else {
                    assert(pre.frames[i].map.contains_key(k));
                }
            }
            assert forall|i: int|
                0 <= i < post.frames.len() implies match (#[trigger] post.frames[i]).parent {
                Some(p) => 0 <= p < i,
                None => true,
            } by {
                assert(post.frames[i].parent == pre.frames[i].parent);
            }
        }
    }

    /// Resolves `name` through the frame chain rooted at `fr`; `None` only
    /// when no frame in the chain binds it.
    pub fn lookup(&self, fr: usize, name: &str) -> (r: Option<Value>)
        requires
            self.wf(),
            fr < self@.frames.len(),
        ensures
            match r {
                Some(v) => lookup_chain(self@.frames, fr as int, name@) == Some(v@) && val_wf(
                    v@,
                    self@.frames.len() as int,
                    self@.cells.len() as int,
                ),
                None => lookup_chain(self@.frames, fr as int, name@) is None,
            },
    {
        let mut cur: usize = fr;
        loop
            invariant
                self.wf(),
                cur < self@.frames.len(),
                lookup_chain(self@.frames, fr as int, name@) == lookup_chain(
                    self@.frames,
                    cur as int,
                    name@,
                ),
            decreases cur,
        {
            proof {
                lemma_frames_view_len(self.frames@);
                lemma_frames_view_index(self.frames@, cur as int);
            }
            match frame_get(&self.frames[cur], name) {
                Some(v) => {
                    return Some(v.clone());
                },
                None => {
                    match self.frames[cur].parent {
                        Some(p) => {
                            cur = p;
                        },
                        None => {
                            return None;
                        },
                    }
                },
            }
        }
    }

    /// As `lookup`, but a miss is an `UnboundSymbol` error carrying the
    /// name.
    pub fn lookup_err(&self, fr: usize, name: &str) -> (r: Result<Value, RuntimeError>)
        requires
            self.wf(),
            fr < self@.frames.len(),
        ensures
            match r {
                Ok(v) => lookup_chain(self@.frames, fr as int, name@) == Some(v@) && val_wf(
                    v@,
                    self@.frames.len() as int,
                    self@.cells.len() as int,
                ),
                Err(e) => lookup_chain(self@.frames, fr as int, name@) is None && e@
                    == crate::evaluator::ErrM::UnboundSymbol(name@),
            },
    {
        match self.lookup(fr, name) {
            Some(v) => Ok(v),
            None => Err(RuntimeError::UnboundSymbol(name.to_owned())),
        }
    }

    /// A new child frame of `fr` holding the single binding `name`; returns
    /// the child's index.
    pub fn with_symbol(&mut self, fr: usize, name: String, val: Value) -> (child: usize)
        requires
            old(self).wf(),
            fr < old(self)@.frames.len(),
            val_wf(val@, old(self)@.frames.len() as int, old(self)@.cells.len() as int),
        ensures
            final(self).wf(),
            child == old(self)@.frames.len(),
            final(self)@.frames == old(self)@.frames.push(
                FrameM {
                    map: Map::empty().insert(name@, val@),
                    parent: Some(fr as int),
                },
            ),
            final(self)@.cells == old(self)@.cells,
            final(self)@.output == old(self)@.output,
            env_extends(old(self)@, final(self)@),
    {
        let child = self.create_child_env(fr);
        proof {
            crate::types::lemma_val_wf_grow(
                val@,
                old(self)@.frames.len() as int,
                old(self)@.cells.len() as int,
                self@.frames.len() as int,
                self@.cells.len() as int,
            );
        }
        self.insert(child, name, val);
        proof {
            assert(self@.frames =~= old(self)@.frames.push(
                FrameM { map: Map::empty().insert(name@, val@), parent: Some(fr as int) },
            ));
        }
        child
    }

    /// Allocates a fresh atom cell holding `val`; returns its index.
    pub fn new_cell(&mut self, val: Value) -> (idx: usize)
        requires
            old(self).wf(),
            val_wf(val@, old(self)@.frames.len() as int, old(self)@.cells.len() as int),
        ensures
            final(self).wf(),
            idx == old(self)@.cells.len(),
            final(self)@.cells == old(self)@.cells.push(val@),
            final(self)@.frames == old(self)@.frames,
            final(self)@.output == old(self)@.output,
            env_extends(old(self)@, final(self)@),
    {
        proof {
            lemma_vals_view_len(self.cells@);
        }
        let idx = self.cells.len();
        let ghost old_cells = self.cells@;
        self.cells.push(val);
        proof {
            assert(self.cells@.drop_last() =~= old_cells);
            lemma_vals_view_len(self.cells@);
            let pre = old(self)@;
            let post = self@;
            assert forall|i: int, k: Seq<char>|
                0 <= i < post.frames.len() && (#[trigger] post.frames[i].map.contains_key(
                    k,
                )) implies val_wf(post.frames[i].map[k], post.frames.len() as int,
                post.cells.len() as int) by {
                crate::types::lemma_val_wf_grow(
                    post.frames[i].map[k],
                    pre.frames.len() as int,
                    pre.cells.len() as int,
                    post.frames.len() as int,
                    post.cells.len() as int,
                );
            }
            assert forall|i: int| 0 <= i < post.cells.len() implies val_wf(
                #[trigger] post.cells[i],
                post.frames.len() as int,
                post.cells.len() as int,
            ) by {
                if i < pre.cells.len() {
                    assert(post.cells[i] == pre.cells[i]);
                    crate::types::lemma_val_wf_grow(
                        pre.cells[i],
                        pre.frames.len() as int,
                        pre.cells.len() as int,
                        post.frames.len() as int,
                        post.cells.len() as int,
                    );
                } else {
                    assert(post.cells[i] == val@);
                    crate::types::lemma_val_wf_grow(
                        val@,
                        pre.frames.len() as int,
                        pre.cells.len() as int,
                        post.frames.len() as int,
                        post.cells.len() as int,
                    );
                }
            }
        }
        idx
    }

    /// Reads the atom cell `idx`.
    pub fn read_cell(&self, idx: usize) -> (r: Value)
        requires
            self.wf(),
            idx < self@.cells.len(),
        ensures
            r@ == self@.cells[idx as int],
            val_wf(r@, self@.frames.len() as int, self@.cells.len() as int),
    {
        proof {
            lemma_vals_view_len(self.cells@);
            lemma_vals_view_index(self.cells@, idx as int);
        }
        self.cells[idx].clone()
    }

    /// Appends one line to the buffered output.
    pub fn push_output(&mut self, line: String)
        requires
            old(self).wf(),
        ensures
            final(self).wf(),
            final(self)@.output == old(self)@.output.push(line@),
            final(self)@.frames == old(self)@.frames,
            final(self)@.cells == old(self)@.cells,
            env_extends(old(self)@, final(self)@),
    {
        let ghost old_out = self.output@;
        self.output.push(line);
        proof {
            assert(self.output@.drop_last() =~= old_out);
            assert(self@.frames == old(self)@.frames);
            assert(self@.cells == old(self)@.cells);
            assert(env_wf(self@));
        }
    }

    /// Hands the buffered output lines over and leaves the buffer empty.
    /// The caller, outside the library, is the one that actually prints.
    pub fn take_output(&mut self) -> (out: Vec<String>)
        requires
            old(self).wf(),
        ensures
            final(self).wf(),
            strings_view(out@) == old(self)@.output,
            final(self)@.output == Seq::<Seq<char>>::empty(),
            final(self)@.frames == old(self)@.frames,
            final(self)@.cells == old(self)@.cells,
    {
        let mut out: Vec<String> = Vec::new();
        core::mem::swap(&mut out, &mut self.output);
        proof {
            assert(strings_view(self.output@) =~= Seq::<Seq<char>>::empty());
            assert(self@.frames == old(self)@.frames);
            assert(self@.cells == old(self)@.cells);
            assert(env_wf(self@));
        }
        out
    }

    /// Number of frames, as an exec value.
    pub fn num_frames(&self) -> (n: usize)
        ensures
            n == self@.frames.len(),
    {
        proof {
            lemma_frames_view_len(self.frames@);
        }
        self.frames.len()
    }
}

impl Default for Env {
    /// The interpreter's starting environment: a root frame holding every
    /// builtin together with `not`, whose closure captures a second,
    /// untouched frame of builtins, so that later top-level definitions
    /// cannot change what `not` means.
    fn default() -> (r: Env)
        ensures
            r.wf(),
            r@.frames.len() == 2,
            r@.frames[0].parent is None,
            r@.frames[1].parent is None,
            r@.frames[0].map == crate::builtins::core_bindings(Map::empty()).insert(
                "not"@,
                crate::builtins::comparison::not_closure(1),
            ),
            r@.frames[1].map == crate::builtins::core_bindings(Map::empty()),
            r@.cells == Seq::<ValM>::empty(),
            r@.output == Seq::<Seq<char>>::empty(),
    {
        let mut env = Env::with_core_functions();
        let aux = env.create_root_frame();
        crate::builtins::insert_core_functions(&mut env, aux);
        crate::builtins::insert_core_closures(&mut env, 0, aux);
        env
    }
}

/// Bindings taken from a well-formed association list are well formed.
proof fn lemma_assoc_entries_wf(s: Seq<(String, Value)>, nf: int, nc: int)
    requires
        forall|i: int| 0 <= i < s.len() ==> val_wf(val_view((#[trigger] s[i]).1), nf, nc),
    ensures
        forall|k: Seq<char>|
            #[trigger] assoc_map(entries_view(s)).contains_key(k) ==> val_wf(
                assoc_map(entries_view(s))[k],
                nf,
                nc,
            ),
    decreases s,
{
    if s.len() > 0 {
        lemma_assoc_entries_wf(s.drop_last(), nf, nc);
        lemma_entries_view_len(s);
        let ev = entries_view(s);
        assert(ev == entries_view(s.drop_last()).push((s.last().0@, val_view(s.last().1))));
        assert(ev.drop_last() =~= entries_view(s.drop_last()));
        assert(ev.last() == (s.last().0@, val_view(s.last().1)));
        assert(assoc_map(ev) == assoc_map(entries_view(s.drop_last())).insert(
            s.last().0@,
            val_view(s.last().1),
        ));
        assert(s.last() == s[s.len() - 1]);
        assert forall|k: Seq<char>| #[trigger]
            assoc_map(entries_view(s)).contains_key(k) implies val_wf(
            assoc_map(entries_view(s))[k],
            nf,
            nc,
        ) by {
            if k != s.last().0@ {
                assert(assoc_map(entries_view(s.drop_last())).contains_key(k));
            }
        }
    } else {
        assert(entries_view(s) =~= Seq::<(Seq<char>, ValM)>::empty());
    }
}

} // verus!
