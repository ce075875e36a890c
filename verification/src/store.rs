//! The interpreter's three mutable stores: the variable environment, the
//! registry of stored program lines, and the table of built-in commands.
//!
//! Each store is a vector of pairs whose ghost view is a `Map`. The variable
//! environment and the command table are association lists in which the most
//! recent binding for a key wins; the line registry is kept sorted by
//! strictly descending index, which is exactly the order in which the `list`
//! command must emit the stored lines.

use vstd::prelude::*;
use vstd::string::*;
use crate::decimal::{dec_string, i64_dec_string};

verus! {

/// The map denoted by an association list in which a later pair for the
/// same key shadows an earlier one.
pub open spec fn assoc_map<K, V>(s: Seq<(K, V)>) -> Map<K, V>
    decreases s.len(),
{
    if s.len() == 0 {
        Map::empty()
    } else {
        assoc_map(s.drop_last()).insert(s.last().0, s.last().1)
    }
}

/// If no pair at position `i` or later carries key `k`, the tail is
/// irrelevant to `k`: the list denotes the same binding for `k` as its
/// prefix of length `i`.
pub proof fn lemma_assoc_map_scan<K, V>(s: Seq<(K, V)>, k: K, i: int)
    requires
        0 <= i <= s.len(),
        forall|j: int| i <= j < s.len() ==> (#[trigger] s[j]).0 != k,
    ensures
        assoc_map(s).contains_key(k) == assoc_map(s.take(i)).contains_key(k),
        assoc_map(s).contains_key(k) ==> assoc_map(s)[k] == assoc_map(s.take(i))[k],
    decreases s.len() - i,
{
    if i == s.len() {
        assert(s.take(i) =~= s);
    } else {
        lemma_assoc_map_scan(s, k, i + 1);
        let t = s.take(i + 1);
        assert(t.drop_last() =~= s.take(i));
        assert(t.last() == s[i]);
        assert(assoc_map(t) == assoc_map(s.take(i)).insert(s[i].0, s[i].1));
    }
}

/// The pair at position `i` gives the binding for its key, provided no
/// later pair carries the same key.
pub proof fn lemma_assoc_map_found<K, V>(s: Seq<(K, V)>, i: int)
    requires
        0 <= i < s.len(),
        forall|j: int| i < j < s.len() ==> (#[trigger] s[j]).0 != s[i].0,
    ensures
        assoc_map(s).contains_key(s[i].0),
        assoc_map(s)[s[i].0] == s[i].1,
{
    lemma_assoc_map_scan(s, s[i].0, i + 1);
    let t = s.take(i + 1);
    assert(t.drop_last() =~= s.take(i));
    assert(t.last() == s[i]);
    assert(assoc_map(t) == assoc_map(s.take(i)).insert(s[i].0, s[i].1));
}

/// The variable environment: a mapping from lowercase identifier to `i64`,
/// mutated only by assignment.
pub struct VarStore {
    entries: Vec<(String, i64)>,
}

impl View for VarStore {
    type V = Map<Seq<char>, i64>;

    closed spec fn view(&self) -> Map<Seq<char>, i64> {
        assoc_map(self.entries_seq())
    }
}

impl VarStore {
    /// The bindings in insertion order, names as character sequences.
    pub closed spec fn entries_seq(&self) -> Seq<(Seq<char>, i64)> {
        self.entries@.map_values(|p: (String, i64)| (p.0@, p.1))
    }

    /// An empty environment.
    pub fn new() -> (r: VarStore)
        ensures
            r@ == Map::<Seq<char>, i64>::empty(),
    {
        let r = VarStore { entries: Vec::new() };
        proof {
            assert(r.entries_seq() =~= Seq::<(Seq<char>, i64)>::empty());
        }
        r
    }

    /// The value bound to `name`, if any.
    pub fn get(&self, name: &String) -> (r: Option<i64>)
        ensures
            r == if self@.contains_key(name@) {
                Some(self@[name@])
            } else {
                None::<i64>
            },
    {
        let ghost s = self.entries_seq();
        let mut i: usize = self.entries.len();
        while i > 0
            invariant
                i <= self.entries.len(),
                s == self.entries_seq(),
                forall|j: int| i <= j < s.len() ==> (#[trigger] s[j]).0 != name@,
            decreases i,
        {
            i = i - 1;
            let p = &self.entries[i];
            if p.0 == *name {
                proof {
                    assert(s[i as int].0 == name@);
                    lemma_assoc_map_found(s, i as int);
                }
                return Some(p.1);
            }
            proof {
                assert(s[i as int].0 != name@);
            }
        }
        proof {
            lemma_assoc_map_scan(s, name@, 0);
            assert(s.take(0) =~= Seq::<(Seq<char>, i64)>::empty());
        }
        None
    }

    /// Binds `name` to `value`, overwriting any earlier binding.
    pub fn insert(&mut self, name: String, value: i64)
        ensures
            final(self)@ == old(self)@.insert(name@, value),
    {
        let ghost s = self.entries_seq();
        let ghost p: (Seq<char>, i64) = (name@, value);
        self.entries.push((name, value));
        proof {
            assert(self.entries_seq() =~= s.push(p));
            assert(s.push(p).drop_last() =~= s);
        }
    }
}

/// Is `s` sorted by strictly descending line index?
pub open spec fn lines_sorted(s: Seq<(i64, Seq<char>)>) -> bool {
    forall|i: int, j: int| 0 <= i < j < s.len() ==> (#[trigger] s[i]).0 > (#[trigger] s[j]).0
}

/// The map denoted by a line list with pairwise distinct indices.
pub open spec fn line_map(s: Seq<(i64, Seq<char>)>) -> Map<i64, Seq<char>>
    decreases s.len(),
{
    if s.len() == 0 {
        Map::empty()
    } else {
        line_map(s.drop_first()).insert(s[0].0, s[0].1)
    }
}

/// Insertion of a stored line into a descending list: the new pair replaces
/// an equal index and otherwise lands just before the first smaller one.
pub open spec fn line_insert(s: Seq<(i64, Seq<char>)>, k: i64, t: Seq<char>) -> Seq<
    (i64, Seq<char>),
>
    decreases s.len(),
{
    if s.len() == 0 {
        seq![(k, t)]
    } else if s[0].0 > k {
        seq![s[0]] + line_insert(s.drop_first(), k, t)
    } else if s[0].0 == k {
        seq![(k, t)] + s.drop_first()
    } else {
        seq![(k, t)] + s
    }
}

/// `line_insert` keeps the list sorted by strictly descending index.
pub proof fn lemma_line_insert_sorted(s: Seq<(i64, Seq<char>)>, k: i64, t: Seq<char>)
    requires
        lines_sorted(s),
    ensures
        lines_sorted(line_insert(s, k, t)),
    decreases s.len(),
{
    if s.len() > 0 && s[0].0 > k {
        lemma_line_insert_sorted(s.drop_first(), k, t);
        let r = seq![s[0]] + line_insert(s.drop_first(), k, t);
        assert forall|i: int, j: int| 0 <= i < j < r.len() implies (#[trigger] r[i]).0 > (
        #[trigger] r[j]).0 by {
            if i > 0 {
                assert(r[i] == line_insert(s.drop_first(), k, t)[i - 1]);
                assert(r[j] == line_insert(s.drop_first(), k, t)[j - 1]);
            } else {
                assert(r[j] == line_insert(s.drop_first(), k, t)[j - 1]);
                lemma_line_insert_member(s.drop_first(), k, t, j - 1);
            }
        }
    }
}

/// Every pair of `line_insert(s, k, t)` is either the new pair or one of `s`.
proof fn lemma_line_insert_member(s: Seq<(i64, Seq<char>)>, k: i64, t: Seq<char>, i: int)
    requires
        0 <= i < line_insert(s, k, t).len(),
    ensures
        line_insert(s, k, t)[i] == (k, t) || exists|j: int|
            0 <= j < s.len() && line_insert(s, k, t)[i] == s[j],
    decreases s.len(),
{
    if s.len() > 0 && s[0].0 > k {
        if i > 0 {
            lemma_line_insert_member(s.drop_first(), k, t, i - 1);
            let r = line_insert(s.drop_first(), k, t);
            if r[i - 1] != (k, t) {
                let j = choose|j: int| 0 <= j < s.drop_first().len() && r[i - 1] == s.drop_first()[j];
                assert(line_insert(s, k, t)[i] == s[j + 1]);
            }
        }
    }
}

/// `line_insert` denotes insertion into the map of stored lines: the text
/// stored under an index that is already present is overwritten.
pub proof fn lemma_line_insert_map(s: Seq<(i64, Seq<char>)>, k: i64, t: Seq<char>)
    requires
        lines_sorted(s),
    ensures
        line_map(line_insert(s, k, t)) == line_map(s).insert(k, t),
    decreases s.len(),
{
    if s.len() == 0 {
        let r = line_insert(s, k, t);
        assert(r.len() == 1 && r[0] == (k, t));
        assert(r.drop_first() =~= Seq::<(i64, Seq<char>)>::empty());
        assert(line_map(r) == line_map(r.drop_first()).insert(r[0].0, r[0].1));
        assert(line_map(r) =~= line_map(s).insert(k, t));
    } else if s[0].0 > k {
        lemma_line_insert_map(s.drop_first(), k, t);
        let r = seq![s[0]] + line_insert(s.drop_first(), k, t);
        assert(r.drop_first() =~= line_insert(s.drop_first(), k, t));
        assert(line_map(r) == line_map(line_insert(s.drop_first(), k, t)).insert(s[0].0, s[0].1));
        assert(line_map(s.drop_first()).insert(k, t).insert(s[0].0, s[0].1) =~= line_map(
            s.drop_first(),
        ).insert(s[0].0, s[0].1).insert(k, t));
    } else if s[0].0 == k {
        let r = seq![(k, t)] + s.drop_first();
        assert(r.drop_first() =~= s.drop_first());
        assert(r[0] == (k, t));
        assert(line_map(r) == line_map(s.drop_first()).insert(k, t));
        assert(line_map(s.drop_first()).insert(k, t) =~= line_map(s.drop_first()).insert(
            s[0].0,
            s[0].1,
        ).insert(k, t));
    } else {
        let r = seq![(k, t)] + s;
        assert(r.drop_first() =~= s);
        assert(r[0] == (k, t));
    }
}

/// The registry of stored program lines, ordered by descending index.
pub struct LineStore {
    entries: Vec<(i64, String)>,
}

impl View for LineStore {
    type V = Map<i64, Seq<char>>;

    closed spec fn view(&self) -> Map<i64, Seq<char>> {
        line_map(self.lines_seq())
    }
}

impl LineStore {
    /// The stored lines in descending index order.
    pub closed spec fn lines_seq(&self) -> Seq<(i64, Seq<char>)> {
        self.entries@.map_values(|p: (i64, String)| (p.0, p.1@))
    }

    /// The order invariant: indices strictly descending.
    pub open spec fn wf(&self) -> bool {
        lines_sorted(self.lines_seq())
    }

    /// An empty registry.
    pub fn new() -> (r: LineStore)
        ensures
            r@ == Map::<i64, Seq<char>>::empty(),
            r.wf(),
            r.lines_seq() == Seq::<(i64, Seq<char>)>::empty(),
    {
        let r = LineStore { entries: Vec::new() };
        proof {
            assert(r.lines_seq() =~= Seq::<(i64, Seq<char>)>::empty());
        }
        r
    }

    /// Stores `text` under `index`, overwriting any line already there.
    pub fn insert(&mut self, index: i64, text: String)
        requires
            old(self).wf(),
        ensures
            final(self).wf(),
            final(self).lines_seq() == line_insert(old(self).lines_seq(), index, text@),
            final(self)@ == old(self)@.insert(index, text@),
    {
        let ghost s = self.lines_seq();
        let mut i: usize = 0;
        while i < self.entries.len() && self.entries[i].0 > index
            invariant
                i <= self.entries.len(),
                s == self.lines_seq(),
                forall|j: int| 0 <= j < i ==> (#[trigger] s[j]).0 > index,
            decreases self.entries.len() - i,
        {
            i = i + 1;
        }
        if i < self.entries.len() && self.entries[i].0 == index {
            self.entries[i] = (index, text);
            proof {
                assert(self.lines_seq() =~= s.update(i as int, (index, text@)));
                lemma_line_insert_at(s, index, text@, i as int);
            }
        } else {
            self.entries.insert(i, (index, text));
            proof {
                assert(self.lines_seq() =~= s.insert(i as int, (index, text@)));
                lemma_line_insert_at(s, index, text@, i as int);
            }
        }
        proof {
            lemma_line_insert_sorted(s, index, text@);
            lemma_line_insert_map(s, index, text@);
        }
    }

    /// The listing the `list` command emits: every stored line in descending
    /// index order, rendered as the decimal index immediately followed by
    /// the text captured at store time.
    pub fn listing(&self) -> (r: Vec<String>)
        ensures
            r@.len() == self.lines_seq().len(),
            forall|i: int|
                0 <= i < r@.len() ==> (#[trigger] r@[i])@ == dec_string(
                    self.lines_seq()[i].0 as int,
                ) + self.lines_seq()[i].1,
    {
        let mut r: Vec<String> = Vec::new();
        let mut i: usize = 0;
        while i < self.entries.len()
            invariant
                i <= self.entries.len(),
                r@.len() == i,
                forall|j: int|
                    0 <= j < i ==> (#[trigger] r@[j])@ == dec_string(self.lines_seq()[j].0 as int)
                        + self.lines_seq()[j].1,
            decreases self.entries.len() - i,
        {
            let mut line = i64_dec_string(self.entries[i].0);
            line.append(self.entries[i].1.as_str());
            r.push(line);
            i = i + 1;
        }
        r
    }
}

/// Where the scan of the executable insertion stops, the recursive
/// `line_insert` places the new pair: at `i`, replacing an equal index or
/// shifting the rest to the right.
proof fn lemma_line_insert_at(s: Seq<(i64, Seq<char>)>, k: i64, t: Seq<char>, i: int)
    requires
        lines_sorted(s),
        0 <= i <= s.len(),
        forall|j: int| 0 <= j < i ==> (#[trigger] s[j]).0 > k,
        i < s.len() ==> s[i].0 <= k,
    ensures
        i < s.len() && s[i].0 == k ==> line_insert(s, k, t) == s.update(i, (k, t)),
        (i == s.len() || s[i].0 < k) ==> line_insert(s, k, t) == s.insert(i, (k, t)),
    decreases s.len(),
{
    if s.len() == 0 {
        assert(line_insert(s, k, t) =~= s.insert(0, (k, t)));
    } else if i == 0 {
        if s[0].0 == k {
            assert(line_insert(s, k, t) =~= s.update(0, (k, t)));
        } else {
            assert(s[0].0 < k);
            assert(line_insert(s, k, t) =~= s.insert(0, (k, t)));
        }
    } else {
        assert(s[0].0 > k);
        lemma_line_insert_at(s.drop_first(), k, t, i - 1);
        if i < s.len() && s[i].0 == k {
            assert(s.drop_first()[i - 1].0 == k);
            assert(line_insert(s, k, t) =~= seq![s[0]] + s.drop_first().update(i - 1, (k, t)));
            assert(seq![s[0]] + s.drop_first().update(i - 1, (k, t)) =~= s.update(i, (k, t)));
        } else {
            assert(line_insert(s, k, t) =~= seq![s[0]] + s.drop_first().insert(i - 1, (k, t)));
            assert(seq![s[0]] + s.drop_first().insert(i - 1, (k, t)) =~= s.insert(i, (k, t)));
        }
    }
}

/// Which built-in implementation a registered command dispatches to.
#[derive(Debug, Clone, Copy, PartialEq, Eq)]
pub enum Builtin {
    /// Evaluate every argument and emit the results space-joined.
    Print,
    /// Emit every stored line in descending index order.
    List,
}

/// A registered command: its implementation and its expected argument
/// count, where `-1` means "variadic, any count".
#[derive(Debug, Clone, Copy, PartialEq, Eq)]
pub struct InternalCommand {
    pub func: Builtin,
    pub argl: i64,
}

/// The table of built-in commands, populated once at startup and read-only
/// while input is processed.
pub struct CommandTable {
    entries: Vec<(String, InternalCommand)>,
}

impl View for CommandTable {
    type V = Map<Seq<char>, InternalCommand>;

    closed spec fn view(&self) -> Map<Seq<char>, InternalCommand> {
        assoc_map(self.entries_seq())
    }
}

impl CommandTable {
    /// The registrations in order, names as character sequences.
    pub closed spec fn entries_seq(&self) -> Seq<(Seq<char>, InternalCommand)> {
        self.entries@.map_values(|p: (String, InternalCommand)| (p.0@, p.1))
    }

    /// An empty table.
    pub fn new() -> (r: CommandTable)
        ensures
            r@ == Map::<Seq<char>, InternalCommand>::empty(),
    {
        let r = CommandTable { entries: Vec::new() };
        proof {
            assert(r.entries_seq() =~= Seq::<(Seq<char>, InternalCommand)>::empty());
        }
        r
    }

    /// Registers `cmd` under `name`, shadowing any earlier registration.
    pub fn register(&mut self, name: String, cmd: InternalCommand)
        ensures
            final(self)@ == old(self)@.insert(name@, cmd),
    {
        let ghost s = self.entries_seq();
        let ghost p: (Seq<char>, InternalCommand) = (name@, cmd);
        self.entries.push((name, cmd));
        proof {
            assert(self.entries_seq() =~= s.push(p));
            assert(s.push(p).drop_last() =~= s);
        }
    }

    /// The table the interpreter starts with: `print` takes any number of
    /// arguments, `list` takes none.
    pub fn with_builtins() -> (r: CommandTable)
        ensures
            r@ == Map::<Seq<char>, InternalCommand>::empty().insert(
                "print"@,
                InternalCommand { func: Builtin::Print, argl: -1i64 },
            ).insert("list"@, InternalCommand { func: Builtin::List, argl: 0 }),
    {
        let mut r = CommandTable::new();
        r.register(
            String::from_str("print"),
            InternalCommand { func: Builtin::Print, argl: -1 },
        );
        r.register(String::from_str("list"), InternalCommand { func: Builtin::List, argl: 0 });
        r
    }

    /// The registration for `name`, if any.
    pub fn get(&self, name: &String) -> (r: Option<InternalCommand>)
        ensures
            r == if self@.contains_key(name@) {
                Some(self@[name@])
            } else {
                None::<InternalCommand>
            },
    {
        let ghost s = self.entries_seq();
        let mut i: usize = self.entries.len();
        while i > 0
            invariant
                i <= self.entries.len(),
                s == self.entries_seq(),
                forall|j: int| i <= j < s.len() ==> (#[trigger] s[j]).0 != name@,
            decreases i,
        {
            i = i - 1;
            let p = &self.entries[i];
            if p.0 == *name {
                proof {
                    assert(s[i as int].0 == name@);
                    lemma_assoc_map_found(s, i as int);
                }
                return Some(p.1);
            }
            proof {
                assert(s[i as int].0 != name@);
            }
        }
        proof {
            lemma_assoc_map_scan(s, name@, 0);
            assert(s.take(0) =~= Seq::<(Seq<char>, InternalCommand)>::empty());
        }
        None
    }
}

} // verus!
