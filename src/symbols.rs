//! The registry of securities: those already in the ledger ("base") and those
//! first seen during this run ("new").
use vstd::prelude::*;

use crate::error::QifError;
use crate::security::{type_of_token, SecurityType};
use crate::text::{
    chars_of, first_index, first_index_of, lemma_first_index_bounds, same_text, string_of,
    sub_vec,
};

verus! {

/// A security as the registry holds it: symbol, then display name and type.
pub type SecurityEntry = (String, (String, SecurityType));

/// `a` sorts before `b`, character by character (the order of `str`'s `Ord`).
pub open spec fn text_less(a: Seq<char>, b: Seq<char>) -> bool
    decreases a.len(),
{
    if a.len() == 0 {
        b.len() > 0
    } else if b.len() == 0 {
        false
    } else if a[0] != b[0] {
        a[0] < b[0]
    } else {
        text_less(a.drop_first(), b.drop_first())
    }
}

proof fn lemma_text_less_irreflexive(a: Seq<char>)
    ensures
        !text_less(a, a),
    decreases a.len(),
{
    if a.len() > 0 {
        lemma_text_less_irreflexive(a.drop_first());
    }
}

proof fn lemma_text_less_total(a: Seq<char>, b: Seq<char>)
    ensures
        a != b ==> text_less(a, b) || text_less(b, a),
        text_less(a, b) ==> !text_less(b, a) && a != b,
    decreases a.len(),
{
    if a.len() > 0 && b.len() > 0 && a[0] == b[0] {
        lemma_text_less_total(a.drop_first(), b.drop_first());
        if a.drop_first() == b.drop_first() {
            assert forall|i: int| 0 <= i < a.len() implies a[i] == b[i] by {
                if i > 0 {
                    assert(a[i] == a.drop_first()[i - 1]);
                    assert(b[i] == b.drop_first()[i - 1]);
                }
            }
            assert(a =~= b);
        }
    }
    if a.len() == 0 && b.len() == 0 {
        assert(a =~= b);
    }
    if text_less(a, b) && a == b {
        lemma_text_less_irreflexive(a);
    }
}

proof fn lemma_text_less_transitive(a: Seq<char>, b: Seq<char>, c: Seq<char>)
    requires
        text_less(a, b),
        text_less(b, c),
    ensures
        text_less(a, c),
    decreases a.len(),
{
    if a.len() > 0 && b.len() > 0 && c.len() > 0 && a[0] == b[0] && b[0] == c[0] {
        lemma_text_less_transitive(a.drop_first(), b.drop_first(), c.drop_first());
    }
}

/// Whether `a` sorts before `b`.
pub(crate) fn text_less_exec(a: &String, b: &String) -> (r: bool)
    ensures
        r == text_less(a@, b@),
{
    let x = chars_of(a.as_str());
    let y = chars_of(b.as_str());
    let mut i: usize = 0;
    proof {
        assert(x@.subrange(0, x@.len() as int) == x@);
        assert(y@.subrange(0, y@.len() as int) == y@);
    }
    while i < x.len() && i < y.len() && x[i] == y[i]
        invariant
            i <= x@.len(),
            i <= y@.len(),
            text_less(x@, y@) == text_less(x@.subrange(i as int, x@.len() as int), y@.subrange(i as int, y@.len() as int)),
        decreases x.len() - i,
    {
        proof {
            assert(x@.subrange(i as int, x@.len() as int).drop_first() == x@.subrange(i + 1, x@.len() as int));
            assert(y@.subrange(i as int, y@.len() as int).drop_first() == y@.subrange(i + 1, y@.len() as int));
        }
        i = i + 1;
    }
    if i == x.len() {
        i < y.len()
    } else if i == y.len() {
        false
    } else {
        x[i] < y[i]
    }
}

/// The first entry of `s` with symbol `k`.
pub open spec fn find_entry(s: Seq<SecurityEntry>, k: Seq<char>) -> Option<SecurityEntry>
    decreases s.len(),
{
    if s.len() == 0 {
        None
    } else if s[0].0@ == k {
        Some(s[0])
    } else {
        find_entry(s.drop_first(), k)
    }
}

proof fn lemma_find_entry(s: Seq<SecurityEntry>, k: Seq<char>)
    ensures
        find_entry(s, k) is None <==> forall|i: int| 0 <= i < s.len() ==> #[trigger] s[i].0@ != k,
        find_entry(s, k) matches Some(e) ==> e.0@ == k && exists|i: int| 0 <= i < s.len() && s[i] == e,
    decreases s.len(),
{
    if s.len() > 0 {
        lemma_find_entry(s.drop_first(), k);
        if s[0].0@ != k {
            if find_entry(s, k) is None {
                assert forall|i: int| 0 <= i < s.len() implies #[trigger] s[i].0@ != k by {
                    if i > 0 {
                        assert(s.drop_first()[i - 1] == s[i]);
                    }
                }
            } else {
                let e = find_entry(s, k)->0;
                let j = choose|j: int| 0 <= j < s.drop_first().len() && s.drop_first()[j] == e;
                assert(s[j + 1] == e);
            }
            if forall|i: int| 0 <= i < s.len() ==> #[trigger] s[i].0@ != k {
                assert forall|i: int| 0 <= i < s.drop_first().len() implies #[trigger] s.drop_first()[i].0@ != k by {
                    assert(s[i + 1] == s.drop_first()[i]);
                }
            }
        }
    }
}

proof fn lemma_find_push(s: Seq<SecurityEntry>, e: SecurityEntry, k: Seq<char>)
    ensures
        find_entry(s.push(e), k) == (if find_entry(s, k) is Some {
            find_entry(s, k)
        } else if e.0@ == k {
            Some(e)
        } else {
            None::<SecurityEntry>
        }),
    decreases s.len(),
{
    if s.len() > 0 {
        assert(s.push(e).drop_first() == s.drop_first().push(e));
        assert(s.push(e)[0] == s[0]);
        lemma_find_push(s.drop_first(), e, k);
    } else {
        assert(s.push(e).drop_first() =~= Seq::<SecurityEntry>::empty());
        assert(s.push(e)[0] == e);
        assert(find_entry(s.push(e).drop_first(), k) is None);
    }
}

proof fn lemma_find_insert(s: Seq<SecurityEntry>, i: int, e: SecurityEntry, k: Seq<char>)
    requires
        0 <= i <= s.len(),
        find_entry(s, e.0@) is None,
    ensures
        find_entry(s.insert(i, e), k) == (if e.0@ == k {
            Some(e)
        } else {
            find_entry(s, k)
        }),
    decreases s.len(),
{
    if i == 0 {
        assert(s.insert(0, e).drop_first() == s);
    } else {
        assert(s.insert(i, e).drop_first() == s.drop_first().insert(i - 1, e));
        assert(s.insert(i, e)[0] == s[0]);
        lemma_find_insert(s.drop_first(), i - 1, e, k);
    }
}

/// The registry after `symbol` is entered with `name` and `security_type`: unchanged
/// where the symbol is known, else with the symbol added as a new security.
pub open spec fn entered(
    m: Map<Seq<char>, (Seq<char>, SecurityType, bool)>,
    symbol: Seq<char>,
    name: Seq<char>,
    security_type: SecurityType,
) -> Map<Seq<char>, (Seq<char>, SecurityType, bool)> {
    if m.contains_key(symbol) {
        m
    } else {
        m.insert(symbol, (name, security_type, true))
    }
}

/// Entering a symbol a second time, under any name and type, changes nothing: the
/// name and type first entered stay.
pub proof fn lemma_enter_keeps_first(
    m: Map<Seq<char>, (Seq<char>, SecurityType, bool)>,
    symbol: Seq<char>,
    first_name: Seq<char>,
    first_type: SecurityType,
    later_name: Seq<char>,
    later_type: SecurityType,
)
    ensures
        entered(entered(m, symbol, first_name, first_type), symbol, later_name, later_type)
            == entered(m, symbol, first_name, first_type),
        !m.contains_key(symbol) ==> entered(
            entered(m, symbol, first_name, first_type),
            symbol,
            later_name,
            later_type,
        )[symbol].0 == first_name,
{
}

/// After a symbol is entered, looking it up succeeds.
pub proof fn lemma_lookup_after_enter(
    m: Map<Seq<char>, (Seq<char>, SecurityType, bool)>,
    symbol: Seq<char>,
    name: Seq<char>,
    security_type: SecurityType,
)
    ensures
        entered(m, symbol, name, security_type).contains_key(symbol),
{
}

/// A security block of a securities ledger: name, symbol and type token.
pub type LedgerBlock = (Seq<char>, Seq<char>, Seq<char>);

/// The start of the line after the one at `i`.
pub open spec fn next_line(s: Seq<char>, i: int) -> int {
    first_index_of(s, '\n', i) + 1
}

/// A line starts at `i` and ends with a line break.
pub open spec fn line_complete(s: Seq<char>, i: int) -> bool {
    0 <= i <= s.len() && first_index_of(s, '\n', i) < s.len()
}

/// The end of the line at `i` without its line break and one carriage return before it.
pub open spec fn body_end(s: Seq<char>, i: int) -> int {
    let e = first_index_of(s, '\n', i);
    if e > i && s[e - 1] == '\r' {
        e - 1
    } else {
        e
    }
}

pub open spec fn line_body(s: Seq<char>, i: int) -> Seq<char> {
    s.subrange(i, body_end(s, i))
}

/// The complete line at `i` is `tag` followed by a value without carriage returns.
pub open spec fn field_line(s: Seq<char>, i: int, tag: char) -> bool {
    &&& line_complete(s, i)
    &&& body_end(s, i) > i
    &&& s[i] == tag
    &&& forall|j: int| i <= j < body_end(s, i) ==> #[trigger] s[j] != '\r'
}

pub open spec fn field_value(s: Seq<char>, i: int) -> Seq<char> {
    s.subrange(i + 1, body_end(s, i))
}

/// Four complete lines start at `i`: `!Type:Security`, then `N<name>`, `S<symbol>`
/// and `T<type>`.
pub open spec fn block_at(s: Seq<char>, i: int) -> bool {
    let i1 = next_line(s, i);
    let i2 = next_line(s, i1);
    let i3 = next_line(s, i2);
    &&& line_complete(s, i)
    &&& line_body(s, i) == "!Type:Security"@
    &&& field_line(s, i1, 'N')
    &&& field_line(s, i2, 'S')
    &&& field_line(s, i3, 'T')
}

/// The security blocks of a ledger text from `i` on. Lines that do not start a
/// block (blank lines, other records) are passed over.
pub open spec fn security_blocks(s: Seq<char>, i: int) -> Seq<LedgerBlock>
    decreases s.len() + 1 - i,
{
    if i < 0 || i >= s.len() {
        Seq::empty()
    } else {
        proof {
            lemma_first_index_bounds(s, '\n', i);
        }
        if block_at(s, i) {
            let i1 = next_line(s, i);
            let i2 = next_line(s, i1);
            let i3 = next_line(s, i2);
            proof {
                lemma_first_index_bounds(s, '\n', i1);
                lemma_first_index_bounds(s, '\n', i2);
                lemma_first_index_bounds(s, '\n', i3);
            }
            seq![(field_value(s, i1), field_value(s, i2), field_value(s, i3))] + security_blocks(
                s,
                next_line(s, i3),
            )
        } else {
            proof {
                lemma_first_index_bounds(s, '\n', i);
            }
            security_blocks(s, next_line(s, i))
        }
    }
}

/// The base securities that a run of blocks registers, keyed by symbol, with the
/// blocks whose symbol came earlier and were passed over; or the first
/// unrecognised type token.
pub open spec fn ledger_base(blocks: Seq<LedgerBlock>) -> Result<
    (Map<Seq<char>, (Seq<char>, SecurityType)>, Seq<LedgerBlock>),
    Seq<char>,
>
    decreases blocks.len(),
{
    if blocks.len() == 0 {
        Ok((Map::empty(), Seq::empty()))
    } else {
        match ledger_base(blocks.drop_last()) {
            Err(t) => Err(t),
            Ok((m, dups)) => {
                let b = blocks.last();
                match type_of_token(b.2) {
                    None => Err(b.2),
                    Some(t) => if m.contains_key(b.1) {
                        Ok((m, dups.push(b)))
                    } else {
                        Ok((m.insert(b.1, (b.0, t)), dups))
                    },
                }
            },
        }
    }
}

/// A map of base securities as the registry's view shows it.
pub open spec fn base_view(m: Map<Seq<char>, (Seq<char>, SecurityType)>) -> Map<
    Seq<char>,
    (Seq<char>, SecurityType, bool),
> {
    m.map_values(|v: (Seq<char>, SecurityType)| (v.0, v.1, false))
}

/// An entry stands for a block whose type token names its type.
pub open spec fn entry_of_block(e: SecurityEntry, b: LedgerBlock) -> bool {
    e.0@ == b.1 && e.1.0@ == b.0 && type_of_token(b.2) == Some(e.1.1)
}

proof fn lemma_ledger_base_error_stays(done: Seq<LedgerBlock>, rest: Seq<LedgerBlock>)
    requires
        ledger_base(done) is Err,
    ensures
        ledger_base(done + rest) == ledger_base(done),
    decreases rest.len(),
{
    if rest.len() == 0 {
        assert(done + rest =~= done);
    } else {
        lemma_ledger_base_error_stays(done, rest.drop_last());
        assert((done + rest).drop_last() =~= done + rest.drop_last());
    }
}

/// A list of securities, as (symbol, name, type), is exactly the registry's new
/// securities in increasing symbol order.
pub open spec fn new_listing(reg: Map<Seq<char>, (Seq<char>, SecurityType, bool)>, v: Seq<(Seq<char>, Seq<char>, SecurityType)>) -> bool {
    &&& forall|i: int|
        0 <= i < v.len() ==> reg.contains_key(#[trigger] v[i].0) && reg[v[i].0] == (
            v[i].1,
            v[i].2,
            true,
        )
    &&& forall|k: Seq<char>|
        reg.contains_key(k) && #[trigger] reg[k].2 ==> exists|i: int| 0 <= i < v.len() && v[i].0 == k
    &&& forall|i: int, j: int| 0 <= i < j < v.len() ==> text_less(#[trigger] v[i].0, #[trigger] v[j].0)
}

pub open spec fn entries_view(v: Seq<SecurityEntry>) -> Seq<(Seq<char>, Seq<char>, SecurityType)> {
    v.map_values(|e: SecurityEntry| (e.0@, e.1.0@, e.1.1))
}

/// Copies an entry.
fn copy_entry(e: &SecurityEntry) -> (r: SecurityEntry)
    ensures
        r.0@ == e.0@,
        r.1.0@ == e.1.0@,
        r.1.1 == e.1.1,
{
    (e.0.clone(), (e.1.0.clone(), e.1.1))
}

/// The complete line at `i`: the end of its body and the start of the next line.
fn line_at(v: &Vec<char>, i: usize) -> (r: Option<(usize, usize)>)
    requires
        i <= v@.len(),
    ensures
        r is Some <==> line_complete(v@, i as int),
        r matches Some((b, n)) ==> b == body_end(v@, i as int) && n == next_line(v@, i as int)
            && i <= b < n <= v@.len(),
{
    let e = first_index(v, '\n', i);
    if e == v.len() {
        return None;
    }
    let b = if e > i && v[e - 1] == '\r' {
        e - 1
    } else {
        e
    };
    Some((b, e + 1))
}

/// The field line with `tag` at `i`: the end of its value and the start of the next line.
fn field_at(v: &Vec<char>, i: usize, tag: char) -> (r: Option<(usize, usize)>)
    requires
        i <= v@.len(),
    ensures
        r is Some <==> field_line(v@, i as int, tag),
        r matches Some((b, n)) ==> b == body_end(v@, i as int) && n == next_line(v@, i as int)
            && i < b < n <= v@.len(),
{
    match line_at(v, i) {
        None => None,
        Some((b, n)) => {
            if b == i || v[i] != tag {
                assert(!field_line(v@, i as int, tag));
                return None;
            }
            let mut j = i;
            while j < b
                invariant
                    i <= j <= b <= v@.len(),
                    b == body_end(v@, i as int),
                    forall|k: int| i <= k < j ==> #[trigger] v@[k] != '\r',
                decreases b - j,
            {
                if v[j] == '\r' {
                    assert(v@[j as int] == '\r');
                    return None;
                }
                j = j + 1;
            }
            Some((b, n))
        },
    }
}

/// The security block at `i`: the start and body end of its `N`, `S` and `T`
/// lines, and the start of the line after it.
fn block_exec(v: &Vec<char>, i: usize) -> (r: Option<(usize, usize, usize, usize, usize, usize, usize)>)
    requires
        i <= v@.len(),
    ensures
        r is Some <==> block_at(v@, i as int),
        r matches Some((i1, b1, i2, b2, i3, b3, n)) ==> {
            &&& i1 == next_line(v@, i as int) && b1 == body_end(v@, i1 as int)
            &&& i2 == next_line(v@, i1 as int) && b2 == body_end(v@, i2 as int)
            &&& i3 == next_line(v@, i2 as int) && b3 == body_end(v@, i3 as int)
            &&& n == next_line(v@, i3 as int)
            &&& i < i1 < b1 < i2 < b2 < i3 < b3 < n <= v@.len()
        },
{
    let (b0, i1) = match line_at(v, i) {
        None => return None,
        Some(p) => p,
    };
    let head = sub_vec(v, i, b0);
    if !same_text(&head, "!Type:Security") {
        return None;
    }
    let (b1, i2) = match field_at(v, i1, 'N') {
        None => return None,
        Some(p) => p,
    };
    let (b2, i3) = match field_at(v, i2, 'S') {
        None => return None,
        Some(p) => p,
    };
    let (b3, n) = match field_at(v, i3, 'T') {
        None => return None,
        Some(p) => p,
    };
    Some((i1, b1, i2, b2, i3, b3, n))
}

fn type_from_token(t: &Vec<char>) -> (r: Option<SecurityType>)
    ensures
        r == type_of_token(t@),
{
    if same_text(t, "Option") {
        Some(SecurityType::Option)
    } else if same_text(t, "Stock") {
        Some(SecurityType::Stock)
    } else if same_text(t, "Mutual Fund") {
        Some(SecurityType::MutualFund)
    } else if same_text(t, "Market Index") {
        Some(SecurityType::MarketIndex)
    } else {
        None
    }
}

/// The registry of known securities, keyed by symbol.
pub struct Symbols {
    base_symbols: Vec<SecurityEntry>,
    new_symbols: Vec<SecurityEntry>,
}

impl View for Symbols {
    /// Each symbol maps to its display name, its type, and whether it was first
    /// seen during this run.
    type V = Map<Seq<char>, (Seq<char>, SecurityType, bool)>;

    closed spec fn view(&self) -> Self::V {
        Map::new(
            |k: Seq<char>|
                find_entry(self.base_symbols@, k) is Some || find_entry(self.new_symbols@, k) is Some,
            |k: Seq<char>|
                match find_entry(self.base_symbols@, k) {
                    Some(e) => (e.1.0@, e.1.1, false),
                    None => {
                        let e = find_entry(self.new_symbols@, k)->0;
                        (e.1.0@, e.1.1, true)
                    },
                },
        )
    }
}

impl Symbols {
    /// The new securities are held in increasing symbol order, and none of them is
    /// also a base security.
    pub closed spec fn wf(&self) -> bool {
        &&& forall|i: int, j: int|
            0 <= i < j < self.new_symbols@.len() ==> text_less(
                #[trigger] self.new_symbols@[i].0@,
                #[trigger] self.new_symbols@[j].0@,
            )
        &&& forall|i: int|
            0 <= i < self.new_symbols@.len() ==> find_entry(
                self.base_symbols@,
                #[trigger] self.new_symbols@[i].0@,
            ) is None
    }

    /// A registry that knows no security.
    pub fn empty() -> (r: Symbols)
        ensures
            r.wf(),
            r@ == Map::<Seq<char>, (Seq<char>, SecurityType, bool)>::empty(),
    {
        let r = Symbols { base_symbols: Vec::new(), new_symbols: Vec::new() };
        assert(r@ =~= Map::<Seq<char>, (Seq<char>, SecurityType, bool)>::empty());
        r
    }

    fn find_in(v: &Vec<SecurityEntry>, symbol: &String) -> (r: Option<usize>)
        ensures
            r is None <==> find_entry(v@, symbol@) is None,
            r matches Some(i) ==> i < v@.len() && find_entry(v@, symbol@) == Some(v@[i as int]),
    {
        let mut i: usize = 0;
        assert(v@.subrange(0, v@.len() as int) == v@);
        while i < v.len()
            invariant
                i <= v@.len(),
                find_entry(v@, symbol@) == find_entry(v@.subrange(i as int, v@.len() as int), symbol@),
            decreases v.len() - i,
        {
            proof {
                assert(v@.subrange(i as int, v@.len() as int).drop_first() == v@.subrange(i + 1, v@.len() as int));
            }
            if v[i].0 == *symbol {
                return Some(i);
            }
            i = i + 1;
        }
        None
    }

    /// The display name and type registered for `symbol`, if any.
    pub fn get(&self, symbol: &String) -> (r: Option<(String, SecurityType)>)
        ensures
            r is Some <==> self@.contains_key(symbol@),
            r matches Some(e) ==> e.0@ == self@[symbol@].0 && e.1 == self@[symbol@].1,
    {
        match Self::find_in(&self.base_symbols, symbol) {
            Some(i) => Some((self.base_symbols[i].1.0.clone(), self.base_symbols[i].1.1)),
            None => match Self::find_in(&self.new_symbols, symbol) {
                Some(i) => Some((self.new_symbols[i].1.0.clone(), self.new_symbols[i].1.1)),
                None => None,
            },
        }
    }

    /// The display name registered for `symbol`. Every symbol that reaches a
    /// lookup is expected to have been registered before.
    pub fn lookup(&self, symbol: &String) -> (r: Result<String, QifError>)
        ensures
            r is Ok <==> self@.contains_key(symbol@),
            r matches Ok(name) ==> name@ == self@[symbol@].0,
            r matches Err(e) ==> e == QifError::UnregisteredSymbol(*symbol),
    {
        match Self::find_in(&self.base_symbols, symbol) {
            Some(i) => Ok(self.base_symbols[i].1.0.clone()),
            None => match Self::find_in(&self.new_symbols, symbol) {
                Some(i) => Ok(self.new_symbols[i].1.0.clone()),
                None => Err(QifError::UnregisteredSymbol(symbol.clone())),
            },
        }
    }

    /// Registers a security first seen during this run, unless its symbol is
    /// already known; the first name and type registered for a symbol stay.
    pub fn enter_if_not_found(
        &mut self,
        symbol: &str,
        name: &str,
        security_type: &SecurityType,
    ) -> (r: Result<(), QifError>)
        requires
            old(self).wf(),
        ensures
            final(self).wf(),
            r is Ok,
            final(self)@ == entered(old(self)@, symbol@, name@, *security_type),
    {
        let sym = symbol.to_owned();
        if Self::find_in(&self.base_symbols, &sym).is_some() {
            return Ok(());
        }
        if Self::find_in(&self.new_symbols, &sym).is_some() {
            return Ok(());
        }
        let mut i: usize = 0;
        while i < self.new_symbols.len() && text_less_exec(&self.new_symbols[i].0, &sym)
            invariant
                i <= self.new_symbols@.len(),
                forall|j: int| 0 <= j < i ==> text_less(#[trigger] self.new_symbols@[j].0@, sym@),
            decreases self.new_symbols.len() - i,
        {
            i = i + 1;
        }
        let ghost old_new = self.new_symbols@;
        let entry: SecurityEntry = (sym, (name.to_owned(), *security_type));
        proof {
            lemma_find_entry(old_new, symbol@);
            lemma_find_entry(self.base_symbols@, symbol@);
            if i < old_new.len() {
                lemma_text_less_total(old_new[i as int].0@, symbol@);
            }
        }
        self.new_symbols.insert(i, entry);
        proof {
            let nw = self.new_symbols@;
            assert(nw == old_new.insert(i as int, entry));
            assert forall|a: int, b: int| 0 <= a < b < nw.len() implies text_less(
                #[trigger] nw[a].0@,
                #[trigger] nw[b].0@,
            ) by {
                if a < i && b == i {
                } else if a < i && b > i {
                    assert(nw[b] == old_new[b - 1]);
                } else if a == i && b > i {
                    assert(nw[b] == old_new[b - 1]);
                    if b - 1 > i {
                        lemma_text_less_transitive(symbol@, old_new[i as int].0@, old_new[b - 1].0@);
                    }
                } else if a > i {
                    assert(nw[a] == old_new[a - 1]);
                    assert(nw[b] == old_new[b - 1]);
                }
            }
            assert forall|j: int| 0 <= j < nw.len() implies find_entry(
                self.base_symbols@,
                #[trigger] nw[j].0@,
            ) is None by {
                if j < i {
                } else if j > i {
                    assert(nw[j] == old_new[j - 1]);
                }
            }
            assert forall|k: Seq<char>| #[trigger] find_entry(nw, k) == (if entry.0@ == k {
                Some(entry)
            } else {
                find_entry(old_new, k)
            }) by {
                lemma_find_insert(old_new, i as int, entry, k);
            }
            assert(self@ =~= old(self)@.insert(symbol@, (name@, *security_type, true)));
        }
        Ok(())
    }

    /// The securities first seen during this run, in increasing symbol order.
    pub fn get_new_securities(&self) -> (r: Result<Vec<SecurityEntry>, QifError>)
        requires
            self.wf(),
        ensures
            r matches Ok(v) && new_listing(self@, entries_view(v@)),
    {
        let mut v: Vec<SecurityEntry> = Vec::new();
        let mut i: usize = 0;
        while i < self.new_symbols.len()
            invariant
                i <= self.new_symbols@.len(),
                v@.len() == i,
                forall|j: int|
                    0 <= j < i ==> (#[trigger] v@[j]).0@ == self.new_symbols@[j].0@ && v@[j].1.0@
                        == self.new_symbols@[j].1.0@ && v@[j].1.1 == self.new_symbols@[j].1.1,
            decreases self.new_symbols.len() - i,
        {
            v.push(copy_entry(&self.new_symbols[i]));
            i = i + 1;
        }
        proof {
            let nw = self.new_symbols@;
            assert forall|i: int| 0 <= i < v@.len() implies self@.contains_key(#[trigger] v@[i].0@)
                && self@[v@[i].0@] == (v@[i].1.0@, v@[i].1.1, true) by {
                let k = nw[i].0@;
                lemma_find_entry(nw, k);
                let e = find_entry(nw, k)->0;
                let j = choose|j: int| 0 <= j < nw.len() && nw[j] == e;
                if j < i {
                    assert(text_less(nw[j].0@, nw[i].0@));
                    lemma_text_less_irreflexive(k);
                } else if j > i {
                    assert(text_less(nw[i].0@, nw[j].0@));
                    lemma_text_less_irreflexive(k);
                }
            }
            assert forall|k: Seq<char>| self@.contains_key(k) && #[trigger] self@[k].2 implies exists|i: int|
                0 <= i < v@.len() && v@[i].0@ == k by {
                lemma_find_entry(nw, k);
                let e = find_entry(nw, k)->0;
                let j = choose|j: int| 0 <= j < nw.len() && nw[j] == e;
                assert(v@[j].0@ == k);
            }
            assert forall|i: int, j: int| 0 <= i < j < v@.len() implies text_less(
                #[trigger] v@[i].0@,
                #[trigger] v@[j].0@,
            ) by {
                assert(text_less(nw[i].0@, nw[j].0@));
            }
            let ev = entries_view(v@);
            assert forall|k: Seq<char>| self@.contains_key(k) && #[trigger] self@[k].2 implies exists|i: int|
                0 <= i < ev.len() && ev[i].0 == k by {
                let i = choose|i: int| 0 <= i < v@.len() && v@[i].0@ == k;
                assert(ev[i].0 == k);
            }
            assert forall|i: int, j: int| 0 <= i < j < ev.len() implies text_less(
                #[trigger] ev[i].0,
                #[trigger] ev[j].0,
            ) by {
                assert(text_less(v@[i].0@, v@[j].0@));
            }
        }
        Ok(v)
    }

    /// Registers a security of the existing ledger unless its symbol is known.
    fn enter_base(&mut self, entry: SecurityEntry) -> (added: bool)
        requires
            old(self).new_symbols@.len() == 0,
        ensures
            final(self).new_symbols@.len() == 0,
            added == !old(self)@.contains_key(entry.0@),
            final(self)@ == (if added {
                old(self)@.insert(entry.0@, (entry.1.0@, entry.1.1, false))
            } else {
                old(self)@
            }),
    {
        if Self::find_in(&self.base_symbols, &entry.0).is_some() {
            return false;
        }
        let ghost old_base = self.base_symbols@;
        let ghost e = entry;
        self.base_symbols.push(entry);
        proof {
            assert forall|k: Seq<char>| #[trigger] find_entry(self.base_symbols@, k) == (if find_entry(
                old_base,
                k,
            ) is Some {
                find_entry(old_base, k)
            } else if e.0@ == k {
                Some(e)
            } else {
                None::<SecurityEntry>
            }) by {
                lemma_find_push(old_base, e, k);
            }
            assert(self@ =~= old(self)@.insert(e.0@, (e.1.0@, e.1.1, false)));
        }
        true
    }

    /// Reads the securities of an existing ledger: repeated blocks of
    /// `!Type:Security`, `N<name>`, `S<symbol>` and `T<type>` lines, each line ended by
    /// a line break (a carriage return before it is allowed). Lines outside such
    /// blocks are passed over. For a symbol given more than once the first block
    /// counts; the later ones are returned beside the registry. An unrecognised
    /// type is an error.
    pub fn from_ledger(contents: &str) -> (r: Result<(Symbols, Vec<SecurityEntry>), QifError>)
        ensures
            match ledger_base(security_blocks(contents@, 0)) {
                Ok((m, dups)) => r matches Ok((sym, d)) && sym.wf() && sym@ == base_view(m)
                    && d@.len() == dups.len() && forall|j: int|
                    0 <= j < d@.len() ==> entry_of_block(#[trigger] d@[j], dups[j]),
                Err(t) => r matches Err(QifError::UnrecognizedSecurityType(x)) && x@ == t,
            },
    {
        let v = chars_of(contents);
        let mut sym = Symbols { base_symbols: Vec::new(), new_symbols: Vec::new() };
        let mut dups: Vec<SecurityEntry> = Vec::new();
        let ghost mut done: Seq<LedgerBlock> = Seq::empty();
        let mut i: usize = 0;
        proof {
            assert(done + security_blocks(v@, 0) =~= security_blocks(v@, 0));
            assert(base_view(Map::empty()) =~= sym@);
        }
        while i < v.len()
            invariant
                i <= v@.len(),
                v@ == contents@,
                security_blocks(v@, 0) == done + security_blocks(v@, i as int),
                sym.new_symbols@.len() == 0,
                ledger_base(done) matches Ok((m, d)) && sym@ == base_view(m) && dups@.len()
                    == d.len() && forall|j: int|
                    0 <= j < dups@.len() ==> entry_of_block(#[trigger] dups@[j], d[j]),
            decreases v.len() - i,
        {
            match block_exec(&v, i) {
                Some((i1, b1, i2, b2, i3, b3, n)) => {
                    let ghost b: LedgerBlock = (
                        v@.subrange(i1 + 1, b1 as int),
                        v@.subrange(i2 + 1, b2 as int),
                        v@.subrange(i3 + 1, b3 as int),
                    );
                    proof {
                        assert(security_blocks(v@, i as int) == seq![b] + security_blocks(v@, n as int));
                        assert(security_blocks(v@, 0) =~= done.push(b) + security_blocks(v@, n as int));
                        assert(done.push(b).drop_last() =~= done);
                    }
                    let token = sub_vec(&v, i3 + 1, b3);
                    let t = match type_from_token(&token) {
                        None => {
                            proof {
                                lemma_ledger_base_error_stays(done.push(b), security_blocks(v@, n as int));
                            }
                            return Err(QifError::UnrecognizedSecurityType(string_of(&v, i3 + 1, b3)));
                        },
                        Some(t) => t,
                    };
                    let name = string_of(&v, i1 + 1, b1);
                    let symbol = string_of(&v, i2 + 1, b2);
                    let entry: SecurityEntry = (symbol, (name, t));
                    let kept = copy_entry(&entry);
                    let ghost old_dups = dups@;
                    if !sym.enter_base(entry) {
                        dups.push(kept);
                        proof {
                            assert forall|j: int| 0 <= j < dups@.len() implies entry_of_block(
                                #[trigger] dups@[j],
                                ledger_base(done.push(b))->Ok_0.1[j],
                            ) by {
                                if j < old_dups.len() {
                                    assert(dups@[j] == old_dups[j]);
                                }
                            }
                        }
                    } else {
                        proof {
                            let m = ledger_base(done)->Ok_0.0;
                            assert(sym@ =~= base_view(m.insert(b.1, (b.0, t))));
                        }
                    }
                    proof {
                        done = done.push(b);
                    }
                    i = n;
                },
                None => {
                    proof {
                        lemma_first_index_bounds(v@, '\n', i as int);
                        assert(security_blocks(v@, i as int) == security_blocks(v@, next_line(v@, i as int)));
                    }
                    match line_at(&v, i) {
                        None => {
                            proof {
                                assert(security_blocks(v@, next_line(v@, i as int)) =~= Seq::<LedgerBlock>::empty());
                                assert(security_blocks(v@, v@.len() as int) =~= Seq::<LedgerBlock>::empty());
                            }
                            i = v.len();
                        },
                        Some((_, n)) => {
                            i = n;
                        },
                    }
                },
            }
        }
        proof {
            assert(security_blocks(v@, i as int) =~= Seq::<LedgerBlock>::empty());
            assert(done + security_blocks(v@, i as int) =~= done);
        }
        Ok((sym, dups))
    }

    /// Reads the securities of an existing ledger; see `from_ledger`.
    pub fn new(contents: &str) -> (r: Result<Symbols, QifError>)
        ensures
            match ledger_base(security_blocks(contents@, 0)) {
                Ok((m, _)) => r matches Ok(sym) && sym.wf() && sym@ == base_view(m),
                Err(t) => r matches Err(QifError::UnrecognizedSecurityType(x)) && x@ == t,
            },
    {
        match Self::from_ledger(contents) {
            Ok((sym, _)) => Ok(sym),
            Err(e) => Err(e),
        }
    }
}

} // verus!
