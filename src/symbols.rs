//! The symbol table: identifier text interned to a small integer key.
use vstd::prelude::*;
use vstd::string::*;

verus! {

/// Whether two strings hold the same characters.
fn same_text(a: &str, b: &str) -> (r: bool)
    ensures
        r == (a@ == b@),
{
    let n = a.unicode_len();
    if n != b.unicode_len() {
        return false;
    }
    let mut i: usize = 0;
    while i < n
        invariant
            n == a@.len(),
            n == b@.len(),
            0 <= i <= n,
            forall|j: int| 0 <= j < i ==> a@[j] == b@[j],
        decreases n - i,
    {
        if a.get_char(i) != b.get_char(i) {
            return false;
        }
        i = i + 1;
    }
    assert(a@ =~= b@);
    true
}

/// Identifier text interned to keys `0, 1, 2, ...`, one key per distinct text.
pub struct Namespace {
    names: Vec<String>,
}

impl View for Namespace {
    type V = Seq<Seq<char>>;

    /// The text of each key, in key order.
    closed spec fn view(&self) -> Seq<Seq<char>> {
        self.names@.map_values(|n: String| n@)
    }
}

impl Namespace {
    /// No two keys share a text.
    pub open spec fn wf(&self) -> bool {
        forall|i: int, j: int| 0 <= i < j < self@.len() ==> self@[i] != self@[j]
    }

    /// The key of `text`, if it has one.
    pub open spec fn key_of(&self, text: Seq<char>) -> Option<usize> {
        if exists|i: int| 0 <= i < self@.len() && self@[i] == text {
            Some((choose|i: int| 0 <= i < self@.len() && self@[i] == text) as usize)
        } else {
            None
        }
    }

    /// An empty table.
    pub fn new() -> (r: Namespace)
        ensures
            r.wf(),
            r@.len() == 0,
    {
        Namespace { names: Vec::new() }
    }

    /// The key of `text`, without interning it.
    pub fn lookup(&self, text: &str) -> (r: Option<usize>)
        requires
            self.wf(),
        ensures
            r == self.key_of(text@),
            r matches Some(k) ==> k < self@.len() && self@[k as int] == text@,
    {
        let mut i: usize = 0;
        while i < self.names.len()
            invariant
                self.wf(),
                0 <= i <= self.names.len(),
                forall|j: int| 0 <= j < i ==> self@[j] != text@,
            decreases self.names.len() - i,
        {
            if same_text(self.names[i].as_str(), text) {
                proof {
                    assert(self@[i as int] == text@);
                    assert(exists|c: int| 0 <= c < self@.len() && self@[c] == text@);
                    let c = choose|c: int| 0 <= c < self@.len() && self@[c] == text@;
                    assert(self.wf());
                    if c < i as int {
                        assert(self@[c] != self@[i as int]);
                    } else if c > i as int {
                        assert(self@[i as int] != self@[c]);
                    }
                }
                return Some(i);
            }
            i = i + 1;
        }
        None
    }

    /// The key of `text`, interning it under the next free key if it is new.
    pub fn intern(&mut self, text: &str) -> (k: usize)
        requires
            old(self).wf(),
        ensures
            final(self).wf(),
            k < final(self)@.len(),
            final(self)@[k as int] == text@,
            old(self).key_of(text@) is Some ==> final(self)@ == old(self)@ && old(self).key_of(text@) == Some(k),
            old(self).key_of(text@) is None ==> final(self)@ == old(self)@.push(text@),
    {
        match self.lookup(text) {
            Some(k) => k,
            None => {
                let k = self.names.len();
                self.names.push(String::from_str(text));
                proof {
                    assert(self@ =~= old(self)@.push(text@));
                }
                k
            },
        }
    }

    /// The text interned under `key`, if any.
    pub fn name_of(&self, key: usize) -> (r: Option<&str>)
        ensures
            key < self@.len() ==> (r matches Some(s) && s@ == self@[key as int]),
            key >= self@.len() ==> r is None,
    {
        if key < self.names.len() {
            Some(self.names[key].as_str())
        } else {
            None
        }
    }
}

} // verus!
