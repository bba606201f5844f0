//! The shared tree model: an ordered, append-only sequence of entries,
//! together with its read-only rendering projection.

use vstd::prelude::*;
use vstd::rwlock::RwLock;
use vstd::rwlock::RwLockPredicate;
use vstd::string::StringExecFns;

verus! {

/// Mathematical image of one tree entry: a display name, whether the node is
/// a directory, and its nesting depth below the traversal root.
pub struct TreeEntryV {
    pub name: Seq<char>,
    pub is_dir: bool,
    pub depth: nat,
}

/// One filesystem node's display identity. Immutable once created; the model
/// only ever appends such values.
pub struct TreeEntry {
    pub name: String,
    pub is_dir: bool,
    pub depth: u32,
}

impl View for TreeEntry {
    type V = TreeEntryV;

    open spec fn view(&self) -> TreeEntryV {
        TreeEntryV { name: self.name@, is_dir: self.is_dir, depth: self.depth as nat }
    }
}

/// The ordered sequence of discovered entries. Insertion order is discovery
/// order; entries are only ever appended, never reordered or removed.
pub struct TreeModel {
    entries: Vec<TreeEntry>,
}

impl View for TreeModel {
    type V = Seq<TreeEntryV>;

    closed spec fn view(&self) -> Seq<TreeEntryV> {
        self.entries@.map_values(|e: TreeEntry| e@)
    }
}

/// The indentation that precedes an entry at the given depth: one indent unit
/// per level.
pub open spec fn indent_text(depth: nat) -> Seq<char>
    decreases depth,
{
    if depth == 0 {
        Seq::empty()
    } else {
        indent_text((depth - 1) as nat) + "│   "@
    }
}

/// The rendered line for one entry: indentation, then the branch marker, then
/// the name.
pub open spec fn line_of(e: TreeEntryV) -> Seq<char> {
    indent_text(e.depth) + "├── "@ + e.name
}

fn indent_string(depth: u32) -> (r: String)
    ensures
        r@ == indent_text(depth as nat),
{
    let mut r = String::new();
    let mut level: u32 = 0;
    while level < depth
        invariant
            level <= depth,
            r@ == indent_text(level as nat),
        decreases depth - level,
    {
        r.append("│   ");
        level = level + 1;
    }
    r
}

impl TreeModel {
    /// A model holding no entries.
    pub fn new() -> (r: TreeModel)
        ensures
            r@ == Seq::<TreeEntryV>::empty(),
    {
        let r = TreeModel { entries: Vec::new() };
        proof {
            assert(r@ =~= Seq::<TreeEntryV>::empty());
        }
        r
    }

    /// Appends one entry at the end of the sequence; nothing else changes.
    pub fn add_entry(&mut self, entry: TreeEntry)
        ensures
            final(self)@ == old(self)@.push(entry@),
    {
        self.entries.push(entry);
        proof {
            assert(self@ =~= old(self)@.push(entry@));
        }
    }

    /// How many entries the model holds.
    pub fn len(&self) -> (n: usize)
        ensures
            n == self@.len(),
    {
        self.entries.len()
    }

    /// The rendering projection: one display line per stored entry, in
    /// insertion order. A pure read of the current sequence.
    pub fn lines(&self) -> (r: Vec<String>)
        ensures
            r@.len() == self@.len(),
            forall|i: int| 0 <= i < r@.len() ==> (#[trigger] r@[i])@ == line_of(self@[i]),
    {
        let mut r: Vec<String> = Vec::new();
        let mut idx: usize = 0;
        while idx < self.entries.len()
            invariant
                idx <= self.entries.len(),
                r@.len() == idx,
                forall|i: int| 0 <= i < idx ==> (#[trigger] r@[i])@ == line_of(self@[i]),
            decreases self.entries.len() - idx,
        {
            let e = &self.entries[idx];
            let mut line = indent_string(e.depth);
            line.append("├── ");
            line.append(e.name.as_str());
            r.push(line);
            idx = idx + 1;
        }
        r
    }
}

/// The lock below guards a whole `TreeModel`; any value of it is admissible.
pub struct ModelPred;

impl RwLockPredicate<TreeModel> for ModelPred {
    open spec fn inv(self, v: TreeModel) -> bool {
        true
    }
}

/// The model as the two threads share it: the entry sequence behind a
/// mutual-exclusion lock that the model itself owns. Each append and each
/// snapshot holds the lock for the whole operation, so a reader only ever
/// sees a sequence of fully constructed entries.
pub struct SharedTreeModel {
    lock: RwLock<TreeModel, ModelPred>,
}

impl SharedTreeModel {
    /// A shared model holding no entries.
    pub fn new() -> SharedTreeModel {
        SharedTreeModel { lock: RwLock::new(TreeModel::new(), Ghost(ModelPred)) }
    }

    /// Appends one entry at the end of the sequence, as one whole operation
    /// under the lock: concurrent appends are serialized and none is lost or
    /// left half-written. No observable sequential contract can name the
    /// resulting sequence, since other threads append too.
    pub fn add_entry(&self, entry: TreeEntry) {
        let (mut model, handle) = self.lock.acquire_write();
        model.add_entry(entry);
        handle.release_write(model);
    }

    /// A consistent snapshot of the rendering projection: whatever the walker
    /// does concurrently, the result is the full rendering of one whole entry
    /// sequence — never a truncated or partially constructed entry.
    pub fn lines(&self) -> (r: Vec<String>)
        ensures
            exists|entries: Seq<TreeEntryV>|
                r@.len() == #[trigger] entries.len() && (forall|i: int|
                    0 <= i < entries.len() ==> (#[trigger] r@[i])@ == line_of(entries[i])),
    {
        let handle = self.lock.acquire_read();
        let current = handle.borrow();
        let ghost entries = current@;
        let r = current.lines();
        handle.release_read();
        proof {
            assert(r@.len() == entries.len() && (forall|i: int|
                0 <= i < entries.len() ==> (#[trigger] r@[i])@ == line_of(entries[i])));
        }
        r
    }
}

} // verus!
