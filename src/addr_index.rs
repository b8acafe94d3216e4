use vstd::prelude::*;
use vstd::string::*;

use crate::error::{AugmentedFileError, ManagerError};
use crate::options::AddrId;

verus! {

/// The addresses of one probe kind in id order: the entry at position `i`
/// is the address with id `i`, and no address appears twice.
#[derive(Debug)]
pub struct AddrIndex {
    entries: Vec<String>,
}

/// The index under the name of its backing file.
pub type IndexFile = AddrIndex;

/// Each address once.
pub open spec fn distinct(es: Seq<Seq<char>>) -> bool {
    forall|i: int, j: int| 0 <= i < j < es.len() ==> es[i] != es[j]
}

/// No entry holds a line break.
pub open spec fn newline_free(es: Seq<Seq<char>>) -> bool {
    forall|i: int, j: int| 0 <= i < es.len() && 0 <= j < es[i].len() ==> es[i][j] != '\n'
}

/// The text of an index file: each entry followed by a line break.
pub open spec fn index_text(es: Seq<Seq<char>>) -> Seq<char>
    decreases es.len(),
{
    if es.len() == 0 {
        Seq::empty()
    } else {
        index_text(es.drop_last()) + es.last() + seq!['\n']
    }
}

/// A text with its last line closed: a line break is added where the text
/// is not empty and does not end with one.
pub open spec fn closed_text(t: Seq<char>) -> Seq<char> {
    if t.len() > 0 && t.last() != '\n' {
        t.push('\n')
    } else {
        t
    }
}

/// Where some entry equals `a`.
pub open spec fn holds(es: Seq<Seq<char>>, a: Seq<char>) -> bool {
    exists|i: int| 0 <= i < es.len() && es[i] == a
}

impl View for AddrIndex {
    type V = Seq<Seq<char>>;

    closed spec fn view(&self) -> Seq<Seq<char>> {
        self.entries@.map_values(|s: String| s@)
    }
}

/// Relies on `String::push`: appends one character.
#[verifier::external_body]
pub(crate) fn push_char(s: &mut String, c: char)
    ensures
        final(s)@ == old(s)@.push(c),
{
    s.push(c)
}

proof fn lemma_index_text_push(es: Seq<Seq<char>>, e: Seq<char>)
    ensures
        index_text(es.push(e)) == index_text(es) + e + seq!['\n'],
{
    assert(es.push(e).drop_last() =~= es);
}

proof fn lemma_index_text_ends(es: Seq<Seq<char>>)
    ensures
        index_text(es).len() == 0 <==> es.len() == 0,
        es.len() > 0 ==> index_text(es).last() == '\n',
{
}

/// Two lists of newline-free entries with the same index text are equal.
proof fn lemma_index_text_injective(a: Seq<Seq<char>>, b: Seq<Seq<char>>)
    requires
        newline_free(a),
        newline_free(b),
        index_text(a) == index_text(b),
    ensures
        a == b,
    decreases a.len(),
{
    if a.len() == 0 {
        lemma_index_text_ends(b);
        assert(b =~= a);
    } else {
        lemma_index_text_ends(a);
        lemma_index_text_ends(b);
        let pa = index_text(a.drop_last());
        let pb = index_text(b.drop_last());
        let x = a.last();
        let y = b.last();
        let t = index_text(a);
        assert(t == pa + x + seq!['\n']);
        assert(t == pb + y + seq!['\n']);
        assert(forall|j: int| 0 <= j < x.len() ==> x[j] != '\n') by {
            assert forall|j: int| 0 <= j < x.len() implies x[j] != '\n' by {
                assert(a[a.len() - 1] == x);
            }
        }
        assert(forall|j: int| 0 <= j < y.len() ==> y[j] != '\n') by {
            assert forall|j: int| 0 <= j < y.len() implies y[j] != '\n' by {
                assert(b[b.len() - 1] == y);
            }
        }
        lemma_index_text_ends(a.drop_last());
        lemma_index_text_ends(b.drop_last());
        if x.len() < y.len() {
            if pa.len() == 0 {
                assert(t.len() == x.len() + 1);
                assert(t.len() == pb.len() + y.len() + 1);
            } else {
                let at = pa.len() - 1;
                assert(t[at] == pa[at]);
                assert(pa[at] == '\n');
                assert(at >= pb.len());
                assert(t[at] == y[at - pb.len()]);
            }
        } else if y.len() < x.len() {
            if pb.len() == 0 {
                assert(t.len() == y.len() + 1);
                assert(t.len() == pa.len() + x.len() + 1);
            } else {
                let at = pb.len() - 1;
                assert(t[at] == pb[at]);
                assert(pb[at] == '\n');
                assert(at >= pa.len());
                assert(t[at] == x[at - pa.len()]);
            }
        }
        assert(pa.len() == pb.len());
        assert(pa =~= t.subrange(0, pa.len() as int));
        assert(pb =~= t.subrange(0, pb.len() as int));
        assert(x =~= t.subrange(pa.len() as int, pa.len() as int + x.len()));
        assert(y =~= t.subrange(pb.len() as int, pb.len() as int + y.len()));
        assert(newline_free(a.drop_last()));
        assert(newline_free(b.drop_last()));
        lemma_index_text_injective(a.drop_last(), b.drop_last());
        assert(a =~= a.drop_last().push(x));
        assert(b =~= b.drop_last().push(y));
    }
}

/// The entries of an index file's text, one per line; a last line without
/// a line break counts as an entry.
pub fn split_lines(text: &str) -> (r: Vec<String>)
    ensures
        newline_free(r@.map_values(|s: String| s@)),
        index_text(r@.map_values(|s: String| s@)) == closed_text(text@),
{
    broadcast use vstd::string::axiom_spec_iter;

    let mut lines: Vec<String> = Vec::new();
    let mut cur = String::new();
    let mut open_line: bool = false;
    let ghost t = text@;
    for c in it: text.chars()
        invariant
            it.seq() == t,
            newline_free(lines@.map_values(|s: String| s@)),
            forall|j: int| 0 <= j < cur@.len() ==> cur@[j] != '\n',
            index_text(lines@.map_values(|s: String| s@)) + cur@ == t.subrange(0, it.index() as int),
            cur@.len() == 0 && it.index() > 0 ==> t[it.index() - 1] == '\n',
            open_line == (cur@.len() > 0),
    {
        let ghost ls = lines@.map_values(|s: String| s@);
        let ghost i = it.index();
        proof {
            assert(t.subrange(0, i + 1) =~= t.subrange(0, i as int).push(c));
        }
        if c == '\n' {
            let ghost line = cur@;
            proof {
                lemma_index_text_push(ls, line);
            }
            lines.push(cur);
            cur = String::new();
            open_line = false;
            proof {
                assert(lines@.map_values(|s: String| s@) =~= ls.push(line));
            }
        } else {
            push_char(&mut cur, c);
            open_line = true;
        }
    }
    let ghost ls = lines@.map_values(|s: String| s@);
    assert(t.subrange(0, t.len() as int) =~= t);
    if open_line {
        proof {
            lemma_index_text_push(ls, cur@);
            assert(cur@.len() > 0);
        }
        lines.push(cur);
        proof {
            assert(lines@.map_values(|s: String| s@) =~= ls.push(cur@));
        }
    } else {
        proof {
            lemma_index_text_ends(ls);
            assert(cur@ =~= Seq::<char>::empty());
            assert(index_text(ls) =~= t);
        }
    }
    lines
}

/// The entries that a text holds: the newline-free lines whose index text
/// is the text with its last line closed.
pub open spec fn text_lines(t: Seq<char>) -> Seq<Seq<char>> {
    choose|es: Seq<Seq<char>>| newline_free(es) && index_text(es) == closed_text(t)
}

/// The id of address `a`, if some entry holds it.
pub open spec fn id_in(es: Seq<Seq<char>>, a: Seq<char>) -> Option<AddrId> {
    if holds(es, a) {
        Some((choose|i: int| 0 <= i < es.len() && es[i] == a) as AddrId)
    } else {
        None
    }
}

/// The address with id `id`, if there is one.
pub open spec fn addr_in(es: Seq<Seq<char>>, id: AddrId) -> Option<Seq<char>> {
    if (id as int) < es.len() {
        Some(es[id as int])
    } else {
        None
    }
}

/// The entries a well-formed index can hold: distinct, free of line breaks,
/// and few enough that each id fits in an `AddrId`.
pub open spec fn valid_entries(es: Seq<Seq<char>>) -> bool {
    &&& distinct(es)
    &&& newline_free(es)
    &&& es.len() <= u32::MAX
}

proof fn lemma_text_lines(t: Seq<char>, es: Seq<Seq<char>>)
    requires
        newline_free(es),
        index_text(es) == closed_text(t),
    ensures
        text_lines(t) == es,
{
    let c = text_lines(t);
    lemma_index_text_injective(c, es);
}

/// An index file read back holds what was written: the lines of the text
/// of any newline-free entries are those entries.
pub proof fn lemma_reload(es: Seq<Seq<char>>)
    requires
        newline_free(es),
    ensures
        text_lines(index_text(es)) == es,
{
    lemma_index_text_ends(es);
    assert(closed_text(index_text(es)) == index_text(es));
    lemma_text_lines(index_text(es), es);
}

/// In an index of distinct entries ids and addresses correspond one to
/// one: the id of the address with id `i` is `i`, and the address of the
/// id of an entered address is that address.
pub proof fn lemma_bijection(es: Seq<Seq<char>>)
    requires
        distinct(es),
        es.len() <= u32::MAX,
    ensures
        forall|i: int| 0 <= i < es.len() ==> #[trigger] id_in(es, es[i]) == Some(i as AddrId),
        forall|a: Seq<char>| #[trigger] holds(es, a) ==> addr_in(es, id_in(es, a)->0) == Some(a),
{
    assert forall|i: int| 0 <= i < es.len() implies #[trigger] id_in(es, es[i]) == Some(
        i as AddrId,
    ) by {
        assert(holds(es, es[i]));
        let j = choose|j: int| 0 <= j < es.len() && es[j] == es[i];
        if j < i {
            assert(es[j] != es[i]);
        } else if i < j {
            assert(es[i] != es[j]);
        }
    }
    assert forall|a: Seq<char>| #[trigger] holds(es, a) implies addr_in(es, id_in(es, a)->0) == Some(
        a,
    ) by {
        let j = choose|j: int| 0 <= j < es.len() && es[j] == a;
        assert((j as AddrId) as int == j);
    }
}

/// `addr` followed by a line break: what adding it appends to the file.
pub fn index_line(addr: &str) -> (r: String)
    ensures
        r@ == addr@ + seq!['\n'],
{
    let mut r = addr.to_owned();
    proof {
        reveal_strlit("\n");
    }
    r.append("\n");
    r
}

/// Whether `s` holds no line break.
fn single_line(s: &str) -> (r: bool)
    ensures
        r == (forall|j: int| 0 <= j < s@.len() ==> s@[j] != '\n'),
{
    broadcast use vstd::string::axiom_spec_iter;

    for c in it: s.chars()
        invariant
            it.seq() == s@,
            forall|j: int| 0 <= j < it.index() ==> s@[j] != '\n',
    {
        if c == '\n' {
            return false;
        }
    }
    true
}

impl AddrIndex {
    /// The index is a valid list of entries.
    pub open spec fn wf(&self) -> bool {
        valid_entries(self@)
    }

    /// An empty index.
    pub fn new() -> (r: AddrIndex)
        ensures
            r.wf(),
            r@ == Seq::<Seq<char>>::empty(),
    {
        let r = AddrIndex { entries: Vec::new() };
        assert(r@ =~= Seq::<Seq<char>>::empty());
        r
    }

    /// The number of addresses.
    pub fn len(&self) -> (r: usize)
        ensures
            r == self@.len(),
    {
        self.entries.len()
    }

    /// The address with id `index`.
    pub fn get_addr(&self, index: u32) -> (r: Option<&String>)
        ensures
            r is Some == addr_in(self@, index) is Some,
            r matches Some(s) ==> Some(s@) == addr_in(self@, index),
    {
        if (index as usize) < self.entries.len() {
            Some(&self.entries[index as usize])
        } else {
            None
        }
    }

    /// The id of `addr`, if the index holds it.
    pub fn get_index(&self, addr: &str) -> (r: Option<AddrId>)
        requires
            self.wf(),
        ensures
            r == id_in(self@, addr@),
    {
        let key = addr.to_owned();
        let mut i: usize = 0;
        while i < self.entries.len()
            invariant
                i <= self@.len(),
                self.wf(),
                key@ == addr@,
                forall|j: int| 0 <= j < i ==> self@[j] != addr@,
            decreases self@.len() - i,
        {
            if self.entries[i] == key {
                proof {
                    assert(self@[i as int] == addr@);
                    lemma_bijection(self@);
                    assert(id_in(self@, self@[i as int]) == Some(i as AddrId));
                }
                return Some(i as AddrId);
            }
            i = i + 1;
        }
        proof {
            if holds(self@, addr@) {
                let j = choose|j: int| 0 <= j < self@.len() && self@[j] == addr@;
                assert(self@[j] != addr@);
            }
        }
        None
    }

    /// Adds `addr` if the index lacks it, and returns its id: the one it
    /// had, or the next one. An address holding a line break is refused.
    pub fn add_addr(&mut self, addr: &str) -> (r: Result<AddrId, ManagerError>)
        requires
            old(self).wf(),
            old(self)@.len() < u32::MAX,
        ensures
            final(self).wf(),
            holds(old(self)@, addr@) ==> r == Ok::<AddrId, ManagerError>(
                id_in(old(self)@, addr@)->0,
            ) && final(self)@ == old(self)@,
            !holds(old(self)@, addr@) && (forall|j: int| 0 <= j < addr@.len() ==> addr@[j] != '\n')
                ==> r == Ok::<AddrId, ManagerError>(old(self)@.len() as AddrId) && final(self)@
                == old(self)@.push(addr@),
            !holds(old(self)@, addr@) && !(forall|j: int| 0 <= j < addr@.len() ==> addr@[j] != '\n')
                ==> r == Err::<AddrId, ManagerError>(ManagerError::InvalidAddrArgument)
                && final(self)@ == old(self)@,
    {
        match self.get_index(addr) {
            Some(i) => {
                proof {
                    lemma_bijection(self@);
                }
                Ok(i)
            },
            None => {
                if !single_line(addr) {
                    return Err(ManagerError::InvalidAddrArgument);
                }
                let id = self.entries.len() as AddrId;
                let ghost before = self@;
                self.entries.push(addr.to_owned());
                proof {
                    assert(self@ =~= before.push(addr@));
                    assert forall|i: int, j: int| 0 <= i < j < self@.len() implies self@[i]
                        != self@[j] by {
                        if j == before.len() {
                            assert(self@[i] == before[i]);
                            if before[i] == addr@ {
                                assert(holds(before, addr@));
                            }
                        } else {
                            assert(self@[i] == before[i] && self@[j] == before[j]);
                        }
                    }
                    assert forall|i: int, j: int|
                        0 <= i < self@.len() && 0 <= j < self@[i].len() implies self@[i][j]
                        != '\n' by {
                        if i < before.len() {
                            assert(self@[i] == before[i]);
                        }
                    }
                }
                Ok(id)
            },
        }
    }

    /// Adds each of `addrs` that the index lacks, in order, and stops at the
    /// first address that holds a line break.
    pub fn ensure_for_addrs(&mut self, addrs: &[String]) -> (r: Result<(), ManagerError>)
        requires
            old(self).wf(),
            old(self)@.len() + addrs@.len() < u32::MAX,
        ensures
            final(self).wf(),
            old(self)@.len() <= final(self)@.len() <= old(self)@.len() + addrs@.len(),
            final(self)@.subrange(0, old(self)@.len() as int) == old(self)@,
            r is Ok ==> forall|k: int| 0 <= k < addrs@.len() ==> holds(final(self)@, #[trigger] addrs@[k]@),
            r is Err ==> r == Err::<(), ManagerError>(ManagerError::InvalidAddrArgument),
    {
        let mut k: usize = 0;
        while k < addrs.len()
            invariant
                k <= addrs@.len(),
                self.wf(),
                old(self)@.len() + addrs@.len() < u32::MAX,
                old(self)@.len() <= self@.len() <= old(self)@.len() + k,
                self@.subrange(0, old(self)@.len() as int) == old(self)@,
                forall|j: int| 0 <= j < k ==> holds(self@, #[trigger] addrs@[j]@),
            decreases addrs@.len() - k,
        {
            let ghost before = self@;
            let res = self.add_addr(addrs[k].as_str());
            match res {
                Err(e) => {
                    return Err(ManagerError::InvalidAddrArgument);
                },
                Ok(_) => {},
            }
            proof {
                assert(self@.subrange(0, old(self)@.len() as int) =~= before.subrange(
                    0,
                    old(self)@.len() as int,
                ));
                assert forall|j: int| 0 <= j < k + 1 implies holds(self@, #[trigger] addrs@[j]@) by {
                    if j < k {
                        let i = choose|i: int| 0 <= i < before.len() && before[i] == addrs@[j]@;
                        assert(self@[i] == before[i]);
                    } else if holds(before, addrs@[j]@) {
                        let i = choose|i: int| 0 <= i < before.len() && before[i] == addrs@[j]@;
                        assert(self@[i] == before[i]);
                    } else {
                        assert(self@[before.len() as int] == addrs@[j]@);
                    }
                }
            }
            k = k + 1;
        }
        Ok(())
    }

    /// The text of this index's file, one line per entry in id order.
    pub fn to_text(&self) -> (r: String)
        ensures
            r@ == index_text(self@),
    {
        let mut r = String::new();
        let mut i: usize = 0;
        proof {
            reveal_strlit("\n");
            assert(self@.subrange(0, 0) =~= Seq::<Seq<char>>::empty());
        }
        while i < self.entries.len()
            invariant
                i <= self@.len(),
                r@ == index_text(self@.subrange(0, i as int)),
            decreases self@.len() - i,
        {
            let ghost before = r@;
            let e = self.entries[i].as_str();
            r.append(e);
            r.append("\n");
            proof {
                assert(e@ == self@[i as int]);
                reveal_strlit("\n");
                assert("\n"@ =~= seq!['\n']);
                assert(r@ =~= before + self@[i as int] + seq!['\n']);
                assert(self@.subrange(0, i as int + 1) =~= self@.subrange(0, i as int).push(
                    self@[i as int],
                ));
                lemma_index_text_push(self@.subrange(0, i as int), self@[i as int]);
            }
            i = i + 1;
        }
        assert(self@.subrange(0, self@.len() as int) =~= self@);
        r
    }

    /// Reads an index from the text of its file. The text must hold each
    /// address once, on a line of its own (a parse error of the index file
    /// otherwise).
    pub fn from_text(text: &str) -> (r: Result<AddrIndex, ManagerError>)
        ensures
            r is Ok <==> valid_entries(text_lines(text@)),
            r matches Ok(ix) ==> ix.wf() && ix@ == text_lines(text@),
            r matches Err(e) ==> e == ManagerError::IndexFileIO(AugmentedFileError::Parse(None)),
    {
        let lines = split_lines(text);
        let ghost ls = lines@.map_values(|s: String| s@);
        proof {
            lemma_text_lines(text@, ls);
        }
        if lines.len() > u32::MAX as usize {
            return Err(ManagerError::IndexFileIO(AugmentedFileError::Parse(None)));
        }
        let mut ix = AddrIndex::new();
        let mut i: usize = 0;
        while i < lines.len()
            invariant
                i <= ls.len(),
                ls.len() <= u32::MAX,
                ls == lines@.map_values(|s: String| s@),
                newline_free(ls),
                ls == text_lines(text@),
                ix.wf(),
                ix@ == ls.subrange(0, i as int),
            decreases ls.len() - i,
        {
            let ghost before = ix@;
            proof {
                assert(ls[i as int] == lines@[i as int]@);
            }
            if ix.get_index(lines[i].as_str()).is_some() {
                proof {
                    let j = choose|j: int| 0 <= j < before.len() && before[j] == ls[i as int];
                    assert(ls[j] == ls[i as int]);
                }
                return Err(ManagerError::IndexFileIO(AugmentedFileError::Parse(None)));
            }
            proof {
                assert forall|j: int| 0 <= j < ls[i as int].len() implies ls[i as int][j]
                    != '\n' by {}
            }
            let added = ix.add_addr(lines[i].as_str());
            proof {
                assert(ls.subrange(0, i as int + 1) =~= before.push(ls[i as int]));
            }
            i = i + 1;
        }
        assert(ls.subrange(0, ls.len() as int) =~= ls);
        Ok(ix)
    }
}

} // verus!
