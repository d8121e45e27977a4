//! The registry of editing sessions: one session for each buffer name,
//! created when the name is first opened and kept from then on.

use vstd::prelude::*;
use crate::buffer::Buffer;
use crate::editor::BufferEditor;
use crate::naming::{anon_name, anon_name_string, lemma_anon_names_fit};
use crate::search::{find_lines_in, matching_lines};
use crate::text::chars_of;

verus! {

/// A session under its name.
struct Entry {
    name: String,
    editor: BufferEditor,
}

/// The sessions by name. Its view is the map from each name to its
/// session; `names` and `editors` give the same sessions in the order in
/// which they were created.
pub struct Registry {
    entries: Vec<Entry>,
    next_anon_id: u64,
}

/// A session as it is created: no text, no backing storage, scrolled to
/// the top.
pub open spec fn is_fresh(editor: BufferEditor) -> bool {
    &&& editor.text() == Seq::<char>::empty()
    &&& editor.storage_id().is_none()
    &&& editor.scroll() == 0
}

/// The lines that hold `term`, session by session and within a session in
/// the order of its text.
pub open spec fn search_texts(editors: Seq<BufferEditor>, term: Seq<char>) -> Seq<Seq<char>>
    decreases editors.len(),
{
    if editors.len() == 0 {
        Seq::empty()
    } else {
        search_texts(editors.drop_last(), term) + matching_lines(editors.last().text(), term)
    }
}

impl View for Registry {
    type V = Map<Seq<char>, BufferEditor>;

    open spec fn view(&self) -> Map<Seq<char>, BufferEditor> {
        Map::new(
            |name: Seq<char>| self.names().contains(name),
            |name: Seq<char>| self.editors()[self.names().index_of(name)],
        )
    }
}

impl Registry {
    /// The names, in the order in which their sessions were created.
    pub closed spec fn names(&self) -> Seq<Seq<char>> {
        Seq::new(self.entries@.len(), |i: int| self.entries@[i].name@)
    }

    /// The sessions, each at the position of its name in `names`.
    pub closed spec fn editors(&self) -> Seq<BufferEditor> {
        Seq::new(self.entries@.len(), |i: int| self.entries@[i].editor)
    }

    /// The number from which the search for a free anonymous name starts.
    pub closed spec fn next_id(&self) -> nat {
        self.next_anon_id as nat
    }

    /// No name occurs twice, and every anonymous name below `next_id` is
    /// taken.
    pub open spec fn wf(&self) -> bool {
        &&& self.names().len() == self.editors().len()
        &&& self.names().no_duplicates()
        &&& forall|k: nat| k < self.next_id() ==> self.names().contains(#[trigger] anon_name(k))
    }

    /// `n` is the lowest number from `next_id` on whose anonymous name is
    /// free.
    pub open spec fn is_lowest_free(&self, n: nat) -> bool {
        &&& self.next_id() <= n
        &&& !self.names().contains(anon_name(n))
        &&& forall|k: nat| self.next_id() <= k < n ==> self.names().contains(#[trigger] anon_name(k))
    }

    /// The lowest number from `next_id` on whose anonymous name is free.
    pub open spec fn lowest_free(&self) -> nat {
        choose|n: nat| self.is_lowest_free(n)
    }

    /// The name under which a session is opened: the name given, or the
    /// first free anonymous name where none is given.
    pub open spec fn key_for(&self, name: Option<Seq<char>>) -> Seq<char> {
        match name {
            Some(given) => given,
            None => anon_name(self.lowest_free()),
        }
    }

    /// The names once `key` has a session: `key` comes last where it is
    /// new.
    pub open spec fn names_with(&self, key: Seq<char>) -> Seq<Seq<char>> {
        if self.names().contains(key) {
            self.names()
        } else {
            self.names().push(key)
        }
    }

    /// The sessions once `editor` is the session of `key`.
    pub open spec fn editors_with(&self, key: Seq<char>, editor: BufferEditor) -> Seq<
        BufferEditor,
    > {
        if self.names().contains(key) {
            self.editors().update(self.names().index_of(key), editor)
        } else {
            self.editors().push(editor)
        }
    }

    /// `post` is this registry after `key` was opened: unchanged where the
    /// name has a session, else with a fresh session under `key` behind
    /// the others.
    pub open spec fn opened(&self, post: Registry, key: Seq<char>) -> bool {
        if self.names().contains(key) {
            &&& post.names() == self.names()
            &&& post.editors() == self.editors()
        } else {
            &&& post.names() == self.names().push(key)
            &&& post.editors().len() == self.editors().len() + 1
            &&& post.editors().drop_last() == self.editors()
            &&& is_fresh(post.editors().last())
        }
    }

    /// `post` is the map of this registry after `key` was opened: the map
    /// as it was where the name has a session, else with a fresh session
    /// under `key`.
    pub open spec fn opened_map(&self, post: Map<Seq<char>, BufferEditor>, key: Seq<char>) -> bool {
        &&& post.contains_key(key)
        &&& post == self@.insert(key, post[key])
        &&& if self@.contains_key(key) {
            post[key] == self@[key]
        } else {
            is_fresh(post[key])
        }
    }

    /// At most one number is the lowest free one.
    pub proof fn lemma_lowest_free_unique(&self, a: nat, b: nat)
        requires
            self.is_lowest_free(a),
            self.is_lowest_free(b),
        ensures
            a == b,
    {
        if a < b {
            assert(self.names().contains(anon_name(a)));
        } else if b < a {
            assert(self.names().contains(anon_name(b)));
        }
    }

    /// Some number from `n` on has a free anonymous name, if all below `n`
    /// are taken.
    proof fn lemma_free_from(&self, n: nat)
        requires
            self.next_id() <= n,
            forall|k: nat| k < n ==> self.names().contains(#[trigger] anon_name(k)),
        ensures
            exists|m: nat| self.is_lowest_free(m),
        decreases self.names().len() - n,
    {
        lemma_anon_names_fit(self.names(), n);
        if !self.names().contains(anon_name(n)) {
            assert(self.is_lowest_free(n));
        } else {
            lemma_anon_names_fit(self.names(), n + 1);
            self.lemma_free_from(n + 1);
        }
    }

    /// A session opened without a name never takes the name of another:
    /// there is a lowest free anonymous name, and no session stands under
    /// it.
    pub proof fn lemma_anonymous_name_is_free(&self)
        requires
            self.wf(),
        ensures
            self.is_lowest_free(self.lowest_free()),
            !self@.contains_key(self.key_for(None)),
    {
        self.lemma_free_from(self.next_id());
    }

    /// A registry without sessions.
    pub fn new() -> (registry: Registry)
        ensures
            registry.wf(),
            registry.names() == Seq::<Seq<char>>::empty(),
            registry.next_id() == 0,
            registry@ == Map::<Seq<char>, BufferEditor>::empty(),
    {
        let registry = Registry { entries: Vec::new(), next_anon_id: 0 };
        assert(registry.names() =~= Seq::<Seq<char>>::empty());
        assert(registry@ =~= Map::<Seq<char>, BufferEditor>::empty());
        registry
    }

    /// The number of sessions.
    pub fn len(&self) -> (n: usize)
        ensures
            n == self.names().len(),
    {
        self.entries.len()
    }

    /// The name at position `i`.
    pub(crate) fn name_at(&self, i: usize) -> (name: String)
        requires
            i < self.names().len(),
        ensures
            name@ == self.names()[i as int],
    {
        self.entries[i].name.clone()
    }

    /// The position of `name` among the names, if it has a session.
    fn find(&self, name: &String) -> (found: Option<usize>)
        ensures
            match found {
                Some(i) => i < self.names().len() && self.names()[i as int] == name@,
                None => !self.names().contains(name@),
            },
    {
        let mut i: usize = 0;
        while i < self.entries.len()
            invariant
                i <= self.entries@.len(),
                forall|j: int| 0 <= j < i ==> self.names()[j] != name@,
            decreases self.entries@.len() - i,
        {
            if self.entries[i].name == *name {
                return Some(i);
            }
            i = i + 1;
        }
        None
    }

    /// The first free anonymous name, with its number.
    fn free_name(&self) -> (found: (String, u64))
        requires
            self.wf(),
        ensures
            found.0@ == anon_name(found.1 as nat),
            self.is_lowest_free(found.1 as nat),
            self.lowest_free() == found.1,
    {
        let mut n: u64 = self.next_anon_id;
        proof {
            lemma_anon_names_fit(self.names(), n as nat);
        }
        loop
            invariant
                self.wf(),
                self.next_id() <= n,
                forall|k: nat| k < n ==> self.names().contains(#[trigger] anon_name(k)),
                n <= self.names().len(),
            decreases self.names().len() - n,
        {
            let candidate = anon_name_string(n);
            if self.find(&candidate).is_none() {
                proof {
                    self.lemma_lowest_free_unique(n as nat, self.lowest_free());
                }
                return (candidate, n);
            }
            proof {
                lemma_anon_names_fit(self.names(), (n + 1) as nat);
                assert(self.names().len() == self.entries.len());
            }
            n = n + 1;
        }
    }

    /// Makes sure that a session stands under the name given, or under the
    /// first free anonymous name where none is given, and returns its
    /// position among the names. A search for a free name moves `next_id`
    /// to the number found.
    pub(crate) fn open_at(&mut self, name: Option<String>) -> (i: usize)
        requires
            old(self).wf(),
        ensures
            final(self).wf(),
            old(self).opened(*final(self), old(self).key_for(name.deep_view())),
            old(self).opened_map(final(self)@, old(self).key_for(name.deep_view())),
            i < final(self).names().len(),
            final(self).names()[i as int] == old(self).key_for(name.deep_view()),
            name.is_some() ==> final(self).next_id() == old(self).next_id(),
            name.is_none() ==> final(self).next_id() == old(self).lowest_free(),
            name.is_none() ==> old(self).is_lowest_free(old(self).lowest_free()),
    {
        let ghost key = self.key_for(name.deep_view());
        let (chosen, next) = match name {
            Some(given) => (given, self.next_anon_id),
            None => self.free_name(),
        };
        assert(chosen@ == key);
        let i = match self.find(&chosen) {
            Some(i) => {
                assert(name.is_some());
                i
            },
            None => {
                let i = self.entries.len();
                self.entries.push(Entry { name: chosen, editor: BufferEditor::new(Buffer::new(None)) });
                self.next_anon_id = next;
                proof {
                    let pre = old(self).names();
                    let post = self.names();
                    assert(post =~= pre.push(key));
                    assert(self.editors().drop_last() =~= old(self).editors());
                    assert forall|k: nat| k < self.next_id() implies post.contains(
                        #[trigger] anon_name(k),
                    ) by {
                        assert(pre.contains(anon_name(k)));
                        let j = pre.index_of(anon_name(k));
                        assert(post[j] == anon_name(k));
                    }
                    assert(post.no_duplicates()) by {
                        assert forall|a: int, b: int|
                            0 <= a < post.len() && 0 <= b < post.len() && a != b implies post[a]
                            != post[b] by {
                            if a < pre.len() {
                                assert(pre.contains(pre[a]));
                            }
                            if b < pre.len() {
                                assert(pre.contains(pre[b]));
                            }
                        }
                    }
                }
                i
            },
        };
        proof {
            let editor = self.editors()[i as int];
            assert(self.editors().update(i as int, editor) =~= self.editors());
            old(self).lemma_opened_then_changed(*self, *self, key, i as int, editor);
        }
        i
    }

    /// The session at position `i`, to be changed in place.
    fn at(&mut self, i: usize) -> (editor: &mut BufferEditor)
        requires
            i < old(self).names().len(),
        ensures
            *editor == old(self).editors()[i as int],
            final(self).names() == old(self).names(),
            final(self).editors() == old(self).editors().update(i as int, *final(editor)),
            final(self).next_id() == old(self).next_id(),
    {
        &mut self.entries[i].editor
    }

    /// The map of a registry in which `key` was opened and the session at
    /// `key` then replaced by `editor` is the map before with `editor` at
    /// `key`.
    proof fn lemma_opened_then_changed(
        &self,
        mid: Registry,
        post: Registry,
        key: Seq<char>,
        i: int,
        editor: BufferEditor,
    )
        requires
            self.wf(),
            mid.wf(),
            self.opened(mid, key),
            0 <= i < mid.names().len(),
            mid.names()[i] == key,
            post.names() == mid.names(),
            post.editors() == mid.editors().update(i, editor),
            post.next_id() == mid.next_id(),
        ensures
            post.wf(),
            post@ == self@.insert(key, editor),
            post.names() == self.names_with(key),
            post.editors() == self.editors_with(key, editor),
            self@.contains_key(key) ==> mid.editors()[i] == self@[key],
            !self@.contains_key(key) ==> is_fresh(mid.editors()[i]),
    {
        let pre_names = self.names();
        let names = mid.names();
        let target = self@.insert(key, editor);
        assert(names.contains(key));
        assert(names.index_of(key) == i);
        if !pre_names.contains(key) {
            assert(i == pre_names.len()) by {
                if i < pre_names.len() {
                    assert(pre_names[i] == key);
                }
            }
            assert(mid.editors()[i] == mid.editors().last());
        }
        assert forall|name: Seq<char>| post@.dom().contains(name) <==> target.dom().contains(
            name,
        ) by {
            if names.contains(name) && name != key {
                let j = names.index_of(name);
                assert(pre_names[j] == name);
            }
            if pre_names.contains(name) {
                let j = pre_names.index_of(name);
                assert(names[j] == name);
            }
        }
        assert forall|name: Seq<char>| post@.dom().contains(name) implies #[trigger] post@[name]
            == target[name] by {
            let j = names.index_of(name);
            if name != key {
                assert(pre_names[j] == name);
                assert(pre_names.index_of(name) == j);
                if !pre_names.contains(key) {
                    assert(mid.editors().drop_last()[j] == mid.editors()[j]);
                }
            }
        }
        assert(post@ =~= target);
        assert(post.editors() =~= self.editors_with(key, editor));
    }

    /// The session under the name given, created fresh where the name has
    /// none; without a name, a fresh session under the first free
    /// anonymous name. No other session is touched, and a new session
    /// comes behind the others.
    pub fn fetch_or_create(&mut self, name: Option<String>) -> (editor: &mut BufferEditor)
        requires
            old(self).wf(),
        ensures
            final(self).wf(),
            old(self)@.contains_key(old(self).key_for(name.deep_view())) ==> *editor == old(
                self,
            )@[old(self).key_for(name.deep_view())],
            !old(self)@.contains_key(old(self).key_for(name.deep_view())) ==> is_fresh(*editor),
            final(self)@ == old(self)@.insert(old(self).key_for(name.deep_view()), *final(editor)),
            final(self).names() == old(self).names_with(old(self).key_for(name.deep_view())),
            final(self).editors() == old(self).editors_with(
                old(self).key_for(name.deep_view()),
                *final(editor),
            ),
            old(self).next_id() <= final(self).next_id(),
            name.is_some() ==> final(self).next_id() == old(self).next_id(),
            name.is_none() ==> final(self).next_id() == old(self).lowest_free(),
            name.is_none() ==> old(self).is_lowest_free(old(self).lowest_free()),
    {
        let ghost key = self.key_for(name.deep_view());
        let i = self.open_at(name);
        let ghost mid = *self;
        proof {
            assert forall|post: Registry, editor: BufferEditor|
                #![trigger post.names(), mid.editors().update(i as int, editor)]
                post.names() == mid.names() && post.editors() == mid.editors().update(
                    i as int,
                    editor,
                ) && post.next_id() == mid.next_id() implies post.wf() && post@ == old(
                self,
            )@.insert(key, editor) && post.names() == old(self).names_with(key) && post.editors()
                == old(self).editors_with(key, editor) by {
                old(self).lemma_opened_then_changed(mid, post, key, i as int, editor);
            }
            assert(mid.editors().update(i as int, mid.editors()[i as int]) =~= mid.editors());
            old(self).lemma_opened_then_changed(mid, mid, key, i as int, mid.editors()[i as int]);
        }
        self.at(i)
    }

    /// The session of `name`, if it has one.
    pub fn get(&self, name: &str) -> (found: Option<&BufferEditor>)
        requires
            self.wf(),
        ensures
            match found {
                Some(editor) => self@.contains_key(name@) && *editor == self@[name@],
                None => !self@.contains_key(name@),
            },
    {
        let key = name.to_owned();
        match self.find(&key) {
            Some(i) => {
                assert(self.names().contains(name@));
                assert(self.names().index_of(name@) == i);
                Some(&self.entries[i].editor)
            },
            None => None,
        }
    }

    /// Every line of every session that holds `term` as a literal
    /// substring: session by session in the order of their creation, and
    /// within a session in the order of its text.
    pub fn search_all(&self, term: &str) -> (out: Vec<String>)
        ensures
            out.deep_view() == search_texts(self.editors(), term@),
    {
        let needle = chars_of(term);
        let mut out: Vec<String> = Vec::new();
        let mut i: usize = 0;
        assert(self.editors().take(0) =~= Seq::<BufferEditor>::empty());
        assert(out.deep_view() =~= Seq::<Seq<char>>::empty());
        while i < self.entries.len()
            invariant
                i <= self.entries@.len(),
                needle@ == term@,
                out.deep_view() == search_texts(self.editors().take(i as int), term@),
            decreases self.entries@.len() - i,
        {
            let ghost found = out.deep_view();
            let chars = chars_of(self.entries[i].editor.buffer().text());
            let mut lines = find_lines_in(&chars, &needle);
            let ghost fresh = lines.deep_view();
            out.append(&mut lines);
            proof {
                assert(out.deep_view() =~= found + fresh);
                let upto = self.editors().take(i + 1);
                assert(upto.drop_last() =~= self.editors().take(i as int));
                assert(upto.last() == self.editors()[i as int]);
            }
            i = i + 1;
        }
        assert(self.editors().take(i as int) =~= self.editors());
        out
    }
}

} // verus!
