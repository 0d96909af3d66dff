//! Paths, and the namespace tree: finding a node and putting one in.

use vstd::prelude::*;

use crate::errors::{Error, ErrorView};
use crate::model::{FileMetadata, Tree};

verus! {

/// The character that parts the segments of a path.
pub const SEPARATOR: char = '/';

/// The segments of a path that come after position `start`, when the text
/// from `start` up to `at` is known to hold no separator. Empty segments are
/// left out.
pub open spec fn segments_from(path: Seq<char>, start: int, at: int) -> Seq<Seq<char>>
    decreases path.len() - at,
{
    if at >= path.len() {
        if start < path.len() {
            seq![path.subrange(start, path.len() as int)]
        } else {
            Seq::empty()
        }
    } else if path[at] == SEPARATOR {
        if start < at {
            seq![path.subrange(start, at)] + segments_from(path, at + 1, at + 1)
        } else {
            segments_from(path, at + 1, at + 1)
        }
    } else {
        segments_from(path, start, at + 1)
    }
}

/// The names that a path goes through, from the root down: the pieces of
/// text between its separators, without the empty ones.
pub open spec fn segments(path: Seq<char>) -> Seq<Seq<char>> {
    segments_from(path, 0, 0)
}

/// The position of the last separator among the first `upto` characters, or
/// 0 where there is none.
pub open spec fn last_separator(path: Seq<char>, upto: int) -> int
    decreases upto,
{
    if upto <= 0 {
        0
    } else if path[upto - 1] == SEPARATOR {
        upto - 1
    } else {
        last_separator(path, upto - 1)
    }
}

/// The path of the directory that a path lies in: what stands before its
/// last separator, and nothing where it has none.
pub open spec fn parent_path(path: Seq<char>) -> Seq<char> {
    path.subrange(0, last_separator(path, path.len() as int))
}

/// The first position from `from` on at which a node of the given name stands.
pub open spec fn position_from(nodes: Seq<Tree>, name: Seq<char>, from: int) -> Option<int>
    decreases nodes.len() - from,
{
    if from < 0 || from >= nodes.len() {
        None
    } else if nodes[from].name() == name {
        Some(from)
    } else {
        position_from(nodes, name, from + 1)
    }
}

impl Tree {
    /// The name under which the node is kept in its directory.
    pub open spec fn name(self) -> Seq<char> {
        self.file_info.name()
    }

    /// Where the child of the given name stands among the children.
    pub open spec fn child_index(self, name: Seq<char>) -> Option<int> {
        position_from(self.children, name, 0)
    }

    /// No two children of this node share a name.
    pub open spec fn names_unique(self) -> bool {
        forall|i: int, j: int|
            0 <= i < j < self.children.len() ==> (#[trigger] self.children[i]).name() != (
            #[trigger] self.children[j]).name()
    }

    /// In the whole tree, no two children of one node share a name.
    pub open spec fn wf(self) -> bool
        decreases self,
    {
        &&& self.names_unique()
        &&& forall|i: int| 0 <= i < self.children.len() ==> (#[trigger] self.children[i]).wf()
    }

    /// The node that is reached from this one by going down through the
    /// children of the given names, if each of them is there.
    pub open spec fn resolve(self, names: Seq<Seq<char>>) -> Option<Tree>
        decreases names.len(),
    {
        if names.len() == 0 {
            Some(self)
        } else {
            match self.child_index(names[0]) {
                Some(i) => self.children[i].resolve(names.drop_first()),
                None => None,
            }
        }
    }

    /// This node with `node` among its children: in the place of the child
    /// that had its name, or behind the others where none had it.
    pub open spec fn with_child(self, node: Tree) -> Tree {
        match self.child_index(node.name()) {
            Some(i) => Tree { children: self.children.update(i, node), ..self },
            None => Tree { children: self.children.push(node), ..self },
        }
    }

    /// The tree after `node` has been put under the node that the names lead
    /// to, if that node is there.
    pub open spec fn insert(self, names: Seq<Seq<char>>, node: Tree) -> Option<Tree>
        decreases names.len(),
    {
        if names.len() == 0 {
            Some(self.with_child(node))
        } else {
            match self.child_index(names[0]) {
                Some(i) => match self.children[i].insert(names.drop_first(), node) {
                    Some(child) => Some(Tree { children: self.children.update(i, child), ..self }),
                    None => None,
                },
                None => None,
            }
        }
    }
}

/// The texts of a list of strings.
pub open spec fn texts(names: Seq<String>) -> Seq<Seq<char>> {
    names.map_values(|name: String| name@)
}

/// Cuts a path into the names it goes through.
pub fn split_path(path: &str) -> (names: Vec<String>)
    ensures
        texts(names@) == segments(path@),
{
    let mut names: Vec<String> = Vec::new();
    let len = path.unicode_len();
    let mut start: usize = 0;
    let mut at: usize = 0;
    assert(texts(names@) =~= Seq::empty());
    while at < len
        invariant
            len == path@.len(),
            start <= at <= len,
            segments(path@) == texts(names@) + segments_from(path@, start as int, at as int),
        decreases len - at,
    {
        let c = path.get_char(at);
        if c == SEPARATOR {
            if start < at {
                let name = String::from_str(path.substring_char(start, at));
                let ghost before = names@;
                names.push(name);
                assert(texts(names@) =~= texts(before) + seq![path@.subrange(
                    start as int,
                    at as int,
                )]);
            }
            start = at + 1;
        }
        at = at + 1;
    }
    if start < len {
        let name = String::from_str(path.substring_char(start, len));
        let ghost before = names@;
        names.push(name);
        assert(texts(names@) =~= texts(before) + seq![path@.subrange(start as int, len as int)]);
    }
    names
}

/// Gives the path of the directory that `path` lies in.
pub fn parent_of(path: &str) -> (parent: &str)
    ensures
        parent@ == parent_path(path@),
{
    let len = path.unicode_len();
    let mut last: usize = 0;
    let mut at: usize = 0;
    while at < len
        invariant
            len == path@.len(),
            at <= len,
            last <= at,
            last == last_separator(path@, at as int),
        decreases len - at,
    {
        if path.get_char(at) == SEPARATOR {
            last = at;
        }
        at = at + 1;
    }
    path.substring_char(0, last)
}


/// What `position_from` finds: the first node of that name, or none at all.
pub proof fn lemma_position_from(nodes: Seq<Tree>, name: Seq<char>, from: int)
    requires
        0 <= from,
    ensures
        match position_from(nodes, name, from) {
            Some(i) => from <= i < nodes.len() && nodes[i].name() == name && forall|j: int|
                from <= j < i ==> (#[trigger] nodes[j]).name() != name,
            None => forall|j: int| from <= j < nodes.len() ==> (#[trigger] nodes[j]).name() != name,
        },
    decreases nodes.len() - from,
{
    if from < nodes.len() && nodes[from].name() != name {
        lemma_position_from(nodes, name, from + 1);
    }
}

impl FileMetadata {
    /// The children's trees, one by one.
    pub proof fn lemma_children(&self)
        ensures
            self@.file_info == self.file_info@,
            self@.children.len() == self.children@.len(),
            forall|i: int|
                0 <= i < self.children@.len() ==> (#[trigger] self@.children[i])
                    == self.children@[i]@,
    {
    }

    /// Finds the child of the given name.
    pub fn child_position(&self, name: &String) -> (found: Option<usize>)
        ensures
            match found {
                Some(i) => self@.child_index(name@) == Some(i as int) && i < self.children.len(),
                None => self@.child_index(name@) is None,
            },
    {
        let mut i: usize = 0;
        while i < self.children.len()
            invariant
                i <= self.children.len(),
                self@.children.len() == self.children@.len(),
                forall|k: int|
                    0 <= k < self.children@.len() ==> (#[trigger] self@.children[k])
                        == self.children@[k]@,
                position_from(self@.children, name@, 0) == position_from(
                    self@.children,
                    name@,
                    i as int,
                ),
            decreases self.children.len() - i,
        {
            proof {
                self.children@[i as int].lemma_children();
            }
            let child_name = self.children[i].file_info.name();
            if child_name.eq(name) {
                return Some(i);
            }
            i = i + 1;
        }
        None
    }

    /// Goes down from this node through the children that `path` names.
    pub fn traverse(&self, path: &str) -> (found: Result<&FileMetadata, Error>)
        ensures
            match self@.resolve(segments(path@)) {
                Some(node) => found matches Ok(target) && target@ == node,
                None => found matches Err(e) && e@ == ErrorView::NotFound,
            },
    {
        let names = split_path(path);
        let mut node: &FileMetadata = self;
        let mut i: usize = 0;
        assert(texts(names@).skip(0) =~= texts(names@));
        while i < names.len()
            invariant
                i <= names.len(),
                texts(names@) == segments(path@),
                self@.resolve(texts(names@)) == node@.resolve(texts(names@).skip(i as int)),
            decreases names.len() - i,
        {
            let ghost rest = texts(names@).skip(i as int);
            assert(rest[0] == names@[i as int]@);
            assert(rest.drop_first() =~= texts(names@).skip(i + 1));
            match node.child_position(&names[i]) {
                Some(k) => {
                    proof {
                        node.lemma_children();
                    }
                    node = &node.children[k];
                },
                None => {
                    return Err(Error::NotFound);
                },
            }
            i = i + 1;
        }
        assert(texts(names@).skip(i as int).len() == 0);
        Ok(node)
    }
}


impl FileMetadata {
    /// Puts `node` among the children of this node: in the place of the
    /// child that has its name, or behind the others where none has it.
    pub fn put_child(&mut self, node: FileMetadata)
        ensures
            final(self)@ == old(self)@.with_child(node@),
    {
        let found = self.child_position(node.file_info.name());
        proof {
            self.lemma_children();
        }
        match found {
            Some(i) => {
                self.children.set(i, node);
                assert(self@.children =~= old(self)@.children.update(i as int, node@));
            },
            None => {
                self.children.push(node);
                assert(self@.children =~= old(self)@.children.push(node@));
            },
        }
    }

    /// Puts `node` under the node that the names from position `from` on lead to.
    fn insert_from(&mut self, names: &Vec<String>, from: usize, node: FileMetadata) -> (done:
        Result<(), Error>)
        requires
            from <= names.len(),
        ensures
            match old(self)@.insert(texts(names@).skip(from as int), node@) {
                Some(tree) => done is Ok && final(self)@ == tree,
                None => done matches Err(e) && e@ == ErrorView::NotFound && final(self)@ == old(
                    self,
                )@,
            },
        decreases names.len() - from,
    {
        let ghost rest = texts(names@).skip(from as int);
        if from == names.len() {
            assert(rest.len() == 0);
            self.put_child(node);
            Ok(())
        } else {
            assert(rest[0] == names@[from as int]@);
            assert(rest.drop_first() =~= texts(names@).skip(from + 1));
            let found = self.child_position(&names[from]);
            proof {
                self.lemma_children();
            }
            match found {
                Some(i) => {
                    let done = self.children[i].insert_from(names, from + 1, node);
                    proof {
                        self.lemma_children();
                        if done is Ok {
                            assert(self@.children =~= old(self)@.children.update(
                                i as int,
                                self.children@[i as int]@,
                            ));
                        } else {
                            assert(self@.children =~= old(self)@.children);
                        }
                    }
                    done
                },
                None => Err(Error::NotFound),
            }
        }
    }

    /// Puts `node` into the directory at `path`, where that directory is in the tree.
    pub fn insert_at(&mut self, path: &str, node: FileMetadata) -> (done: Result<(), Error>)
        ensures
            match old(self)@.insert(segments(path@), node@) {
                Some(tree) => done is Ok && final(self)@ == tree,
                None => done matches Err(e) && e@ == ErrorView::NotFound && final(self)@ == old(
                    self,
                )@,
            },
    {
        let names = split_path(path);
        assert(texts(names@).skip(0) =~= texts(names@));
        self.insert_from(&names, 0, node)
    }
}

} // verus!
