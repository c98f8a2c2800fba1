//! Finding the first line of an input that one of a set of texts names exactly.
use vstd::prelude::*;
use vstd::utf8::encode_utf8;

verus! {

/// An input held in memory with a read position.
pub struct ByteCursor {
    data: Vec<u8>,
    pos: usize,
}

/// The index of the first line break at or after `i`, or the length of `s`.
pub open spec fn line_break(s: Seq<u8>, i: int) -> int
    decreases s.len() - i,
{
    if i < 0 || i >= s.len() {
        s.len() as int
    } else if s[i] == 10 {
        i
    } else {
        line_break(s, i + 1)
    }
}

pub proof fn lemma_line_break_bounds(s: Seq<u8>, i: int)
    requires
        0 <= i <= s.len(),
    ensures
        i <= line_break(s, i) <= s.len(),
    decreases s.len() - i,
{
    if i < s.len() && s[i] != 10 {
        lemma_line_break_bounds(s, i + 1);
    }
}

/// The start of the line after the one at `i`.
pub open spec fn line_after(s: Seq<u8>, i: int) -> int {
    let e = line_break(s, i);
    if e < s.len() {
        e + 1
    } else {
        s.len() as int
    }
}

/// The line at `i` without its line break.
pub open spec fn line_text(s: Seq<u8>, i: int) -> Seq<u8> {
    s.subrange(i, line_break(s, i))
}

/// The start of the first line at or after `i` whose text `known` accepts.
pub open spec fn matching_line(s: Seq<u8>, i: int, known: spec_fn(Seq<u8>) -> bool) -> Option<int>
    decreases s.len() - i,
{
    if i < 0 || i >= s.len() {
        None
    } else if known(line_text(s, i)) {
        Some(i)
    } else {
        proof {
            lemma_line_break_bounds(s, i);
        }
        matching_line(s, line_after(s, i), known)
    }
}

/// An input whose first line is known is matched at its start.
pub proof fn lemma_first_line_matches(s: Seq<u8>, known: spec_fn(Seq<u8>) -> bool)
    requires
        s.len() > 0,
        known(line_text(s, 0)),
    ensures
        matching_line(s, 0, known) == Some(0int),
{
}

/// An input none of whose lines is known has no match, wherever the scan starts.
pub proof fn lemma_no_known_line(s: Seq<u8>, i: int, known: spec_fn(Seq<u8>) -> bool)
    requires
        0 <= i,
        forall|j: int| 0 <= j < s.len() ==> !known(#[trigger] line_text(s, j)),
    ensures
        matching_line(s, i, known) is None,
    decreases s.len() - i,
{
    if i < s.len() {
        lemma_line_break_bounds(s, i);
        lemma_no_known_line(s, line_after(s, i), known);
    }
}

/// A line that the scan finds is one that `known` accepts.
pub proof fn lemma_matching_line_found(s: Seq<u8>, i: int, known: spec_fn(Seq<u8>) -> bool)
    ensures
        matching_line(s, i, known) matches Some(j) ==> known(line_text(s, j)),
    decreases s.len() - i,
{
    if 0 <= i < s.len() && !known(line_text(s, i)) {
        lemma_line_break_bounds(s, i);
        lemma_matching_line_found(s, line_after(s, i), known);
    }
}

/// The index of the first key equal to `line`, or the number of keys.
pub open spec fn key_index<V>(keys: Seq<(String, V)>, line: Seq<u8>) -> int
    decreases keys.len(),
{
    if keys.len() == 0 {
        0
    } else if encode_utf8(keys[0].0@) == line {
        0
    } else {
        1 + key_index(keys.drop_first(), line)
    }
}

pub proof fn lemma_key_index_bounds<V>(keys: Seq<(String, V)>, line: Seq<u8>)
    ensures
        0 <= key_index(keys, line) <= keys.len(),
    decreases keys.len(),
{
    if keys.len() > 0 {
        lemma_key_index_bounds(keys.drop_first(), line);
    }
}

proof fn lemma_key_index<V>(keys: Seq<(String, V)>, line: Seq<u8>, i: int)
    requires
        0 <= i <= keys.len(),
        forall|j: int| 0 <= j < i ==> encode_utf8(#[trigger] keys[j].0@) != line,
        i == keys.len() || encode_utf8(keys[i].0@) == line,
    ensures
        key_index(keys, line) == i,
    decreases i,
{
    if i > 0 {
        assert forall|j: int| 0 <= j < i - 1 implies encode_utf8(
            #[trigger] keys.drop_first()[j].0@,
        ) != line by {
            assert(keys.drop_first()[j] == keys[j + 1]);
        }
        lemma_key_index(keys.drop_first(), line, i - 1);
    }
}

impl ByteCursor {
    pub closed spec fn content(&self) -> Seq<u8> {
        self.data@
    }

    pub closed spec fn position(&self) -> int {
        self.pos as int
    }

    pub closed spec fn wf(&self) -> bool {
        self.pos <= self.data@.len()
    }

    /// A cursor at the start of `data`.
    pub fn new(data: Vec<u8>) -> (c: ByteCursor)
        ensures
            c.wf(),
            c.content() == data@,
            c.position() == 0,
    {
        ByteCursor { data, pos: 0 }
    }

    /// The read position.
    pub fn pos(&self) -> (r: usize)
        ensures
            r == self.position(),
    {
        self.pos
    }

    /// Reads the line at the read position, with its line break if it has one.
    pub fn read_line(&mut self) -> (r: Vec<u8>)
        requires
            old(self).wf(),
        ensures
            final(self).wf(),
            final(self).content() == old(self).content(),
            final(self).position() == line_after(old(self).content(), old(self).position()),
            r@ == old(self).content().subrange(old(self).position(), final(self).position()),
    {
        proof {
            lemma_line_break_bounds(self.data@, self.pos as int);
        }
        let e = self.break_from(self.pos);
        let end = if e < self.data.len() {
            e + 1
        } else {
            e
        };
        let r = self.copy_range(self.pos, end);
        self.pos = end;
        r
    }

    /// The bytes from the read position to the end.
    pub fn rest(&self) -> (r: Vec<u8>)
        requires
            self.wf(),
        ensures
            r@ == self.content().subrange(self.position(), self.content().len() as int),
    {
        self.copy_range(self.pos, self.data.len())
    }

    fn copy_range(&self, a: usize, b: usize) -> (r: Vec<u8>)
        requires
            a <= b <= self.data@.len(),
        ensures
            r@ == self.data@.subrange(a as int, b as int),
    {
        let mut r: Vec<u8> = Vec::new();
        let mut i = a;
        while i < b
            invariant
                a <= i <= b <= self.data@.len(),
                r@ == self.data@.subrange(a as int, i as int),
            decreases b - i,
        {
            r.push(self.data[i]);
            proof {
                assert(self.data@.subrange(a as int, i + 1) =~= self.data@.subrange(a as int, i as int).push(self.data@[i as int]));
            }
            i = i + 1;
        }
        r
    }

    fn break_from(&self, from: usize) -> (e: usize)
        requires
            from <= self.data@.len(),
        ensures
            e == line_break(self.data@, from as int),
            from <= e <= self.data@.len(),
    {
        let mut i = from;
        while i < self.data.len() && self.data[i] != 10
            invariant
                from <= i <= self.data@.len(),
                line_break(self.data@, from as int) == line_break(self.data@, i as int),
            decreases self.data.len() - i,
        {
            i = i + 1;
        }
        i
    }

    fn line_equals(&self, i: usize, e: usize, key: &Vec<u8>) -> (r: bool)
        requires
            i <= e <= self.data@.len(),
        ensures
            r == (self.data@.subrange(i as int, e as int) == key@),
    {
        if e - i != key.len() {
            proof {
                assert(self.data@.subrange(i as int, e as int).len() != key@.len());
            }
            return false;
        }
        let mut j: usize = 0;
        while j < key.len()
            invariant
                i <= e <= self.data@.len(),
                e - i == key@.len(),
                j <= key@.len(),
                forall|k: int| 0 <= k < j ==> #[trigger] key@[k] == self.data@[i + k],
            decreases key.len() - j,
        {
            if self.data[i + j] != key[j] {
                proof {
                    assert(self.data@.subrange(i as int, e as int)[j as int] != key@[j as int]);
                }
                return false;
            }
            j = j + 1;
        }
        proof {
            assert(self.data@.subrange(i as int, e as int) =~= key@);
        }
        true
    }
}

/// The bytes of a text.
fn text_bytes(s: &String) -> (r: Vec<u8>)
    ensures
        r@ == encode_utf8(s@),
{
    let b = s.as_str().as_bytes();
    let mut r: Vec<u8> = Vec::new();
    let mut i: usize = 0;
    while i < b.len()
        invariant
            i <= b@.len(),
            r@ == b@.subrange(0, i as int),
        decreases b.len() - i,
    {
        r.push(b[i]);
        proof {
            assert(b@.subrange(0, i + 1) =~= b@.subrange(0, i as int).push(b@[i as int]));
        }
        i = i + 1;
    }
    proof {
        assert(b@.subrange(0, b@.len() as int) =~= b@);
    }
    r
}

/// Scans lines from the read position for one whose text (line break removed)
/// equals one of the keys' bytes. On a match the cursor is left at the start of
/// that line and the first such key's value is returned; with no match the
/// cursor ends at the end of the input.
pub fn find_matching_line<V: Copy>(file: &mut ByteCursor, collection: &Vec<(String, V)>) -> (r: Option<V>)
    requires
        old(file).wf(),
    ensures
        final(file).wf(),
        final(file).content() == old(file).content(),
        match matching_line(
            old(file).content(),
            old(file).position(),
            |line: Seq<u8>| key_index(collection@, line) < collection@.len(),
        ) {
            None => r is None && final(file).position() == old(file).content().len(),
            Some(i) => final(file).position() == i && r == Some(
                collection@[key_index(collection@, line_text(old(file).content(), i))].1,
            ),
        },
{
    let ghost known = |line: Seq<u8>| key_index(collection@, line) < collection@.len();
    let mut keys: Vec<Vec<u8>> = Vec::new();
    let mut k: usize = 0;
    while k < collection.len()
        invariant
            k <= collection@.len(),
            keys@.len() == k,
            forall|j: int| 0 <= j < k ==> (#[trigger] keys@[j])@ == encode_utf8(collection@[j].0@),
        decreases collection.len() - k,
    {
        keys.push(text_bytes(&collection[k].0));
        k = k + 1;
    }
    let ghost s = file.data@;
    let mut i = file.pos;
    proof {
        assert(matching_line(s, i as int, known) == matching_line(s, old(file).position(), known));
    }
    while i < file.data.len()
        invariant
            i <= s.len(),
            s == file.data@,
            file.data@ == old(file).content(),
            keys@.len() == collection@.len(),
            forall|j: int| 0 <= j < keys@.len() ==> (#[trigger] keys@[j])@ == encode_utf8(collection@[j].0@),
            known == (|line: Seq<u8>| key_index(collection@, line) < collection@.len()),
            matching_line(s, i as int, known) == matching_line(s, old(file).position(), known),
        decreases file.data.len() - i,
    {
        let e = file.break_from(i);
        let mut j: usize = 0;
        while j < keys.len()
            invariant
                i < s.len(),
                i <= e <= s.len(),
                e == line_break(s, i as int),
                s == file.data@,
                file.data@ == old(file).content(),
                known == (|line: Seq<u8>| key_index(collection@, line) < collection@.len()),
                matching_line(s, i as int, known) == matching_line(s, old(file).position(), known),
                j <= keys@.len(),
                keys@.len() == collection@.len(),
                forall|m: int| 0 <= m < keys@.len() ==> (#[trigger] keys@[m])@ == encode_utf8(collection@[m].0@),
                forall|m: int| 0 <= m < j ==> encode_utf8(#[trigger] collection@[m].0@) != line_text(s, i as int),
            decreases keys.len() - j,
        {
            if file.line_equals(i, e, &keys[j]) {
                proof {
                    lemma_key_index(collection@, line_text(s, i as int), j as int);
                }
                file.pos = i;
                return Some(collection[j].1);
            }
            j = j + 1;
        }
        proof {
            lemma_key_index(collection@, line_text(s, i as int), j as int);
        }
        i = if e < file.data.len() {
            e + 1
        } else {
            e
        };
    }
    file.pos = i;
    None
}

} // verus!
