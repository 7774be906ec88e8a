use vstd::prelude::*;

verus! {

/// The single failure of bracket resolution, carrying the offending symbol index.
#[derive(Debug, PartialEq, Eq, Structural)]
pub enum Error {
    MismatchedBrackets(usize),
}

/// Number of opening brackets among the first `k` symbols.
pub open spec fn opens(s: Seq<char>, k: int) -> int
    decreases k,
{
    if k <= 0 {
        0
    } else {
        opens(s, k - 1) + if s[k - 1] == '[' { 1int } else { 0int }
    }
}

/// Number of closing brackets among the first `k` symbols.
pub open spec fn closes(s: Seq<char>, k: int) -> int
    decreases k,
{
    if k <= 0 {
        0
    } else {
        closes(s, k - 1) + if s[k - 1] == ']' { 1int } else { 0int }
    }
}

/// Nesting depth after the first `k` symbols.
pub open spec fn depth(s: Seq<char>, k: int) -> int {
    opens(s, k) - closes(s, k)
}

/// No prefix closes more brackets than it opens.
pub open spec fn never_negative(s: Seq<char>) -> bool {
    forall|m: int| 0 <= m <= s.len() ==> #[trigger] depth(s, m) >= 0
}

/// Every bracket has a partner.
pub open spec fn balanced(s: Seq<char>) -> bool {
    never_negative(s) && depth(s, s.len() as int) == 0
}

/// The opening bracket at `o` is closed by the bracket at `c`: the depth
/// between them never falls below the level that `o` opened, and `c` returns to it.
pub open spec fn matched(s: Seq<char>, o: int, c: int) -> bool {
    &&& 0 <= o < c < s.len()
    &&& s[o] == '['
    &&& s[c] == ']'
    &&& depth(s, c) == depth(s, o) + 1
    &&& forall|m: int| o < m <= c ==> #[trigger] depth(s, m) >= depth(s, o) + 1
}

/// The opening bracket at `o` is never closed.
pub open spec fn unclosed(s: Seq<char>, o: int) -> bool {
    &&& 0 <= o < s.len()
    &&& s[o] == '['
    &&& forall|m: int| o < m <= s.len() ==> #[trigger] depth(s, m) >= depth(s, o) + 1
}

/// The closing bracket at `c` is the first one without an opening partner.
pub open spec fn orphan_close(s: Seq<char>, c: int) -> bool {
    &&& 0 <= c < s.len()
    &&& depth(s, c + 1) < 0
    &&& forall|m: int| 0 <= m <= c ==> #[trigger] depth(s, m) >= 0
}

/// The opening bracket at `o` is the innermost one left open at the end.
pub open spec fn innermost_unclosed(s: Seq<char>, o: int) -> bool {
    never_negative(s) && unclosed(s, o) && depth(s, s.len() as int) == depth(s, o) + 1
}

/// Positions of the closing brackets among the first `k` symbols, in order.
pub open spec fn close_positions(s: Seq<char>, k: int) -> Seq<int>
    decreases k,
{
    if k <= 0 {
        Seq::empty()
    } else if s[k - 1] == ']' {
        close_positions(s, k - 1).push(k - 1)
    } else {
        close_positions(s, k - 1)
    }
}

/// `pairs` lists one (open, close) pair for each closing bracket of `s`,
/// in the order of the closing brackets.
pub open spec fn resolved_pairs(s: Seq<char>, pairs: Seq<(usize, usize)>) -> bool {
    &&& pairs.len() == close_positions(s, s.len() as int).len()
    &&& forall|k: int|
        0 <= k < pairs.len() ==> {
            &&& #[trigger] pairs[k].1 as int == close_positions(s, s.len() as int)[k]
            &&& matched(s, pairs[k].0 as int, pairs[k].1 as int)
        }
}

/// Resolution of `s` fails at position `p`: either the first orphan closing
/// bracket, or, with none, the innermost bracket left open.
pub open spec fn resolution_error(s: Seq<char>, p: int) -> bool {
    !balanced(s) && (orphan_close(s, p) || innermost_unclosed(s, p))
}

/// What resolution returns for the symbols `s`.
pub open spec fn resolution_of(s: Seq<char>, r: Result<Vec<(usize, usize)>, Error>) -> bool {
    match r {
        Ok(pairs) => balanced(s) && resolved_pairs(s, pairs@),
        Err(Error::MismatchedBrackets(p)) => resolution_error(s, p as int),
    }
}

proof fn lemma_close_positions(s: Seq<char>, k: int)
    requires
        0 <= k <= s.len(),
    ensures
        close_positions(s, k).len() == closes(s, k),
        forall|j: int|
            0 <= j < close_positions(s, k).len() ==> 0 <= #[trigger] close_positions(s, k)[j] < k,
        forall|j1: int, j2: int|
            0 <= j1 < j2 < close_positions(s, k).len() ==> #[trigger] close_positions(s, k)[j1]
                < #[trigger] close_positions(s, k)[j2],
    decreases k,
{
    if k > 0 {
        lemma_close_positions(s, k - 1);
    }
}

/// On a balanced program, resolution gives exactly one pair per opening
/// bracket, and no position belongs to more than one pair.
pub proof fn lemma_pairs_cover_opens(s: Seq<char>, pairs: Seq<(usize, usize)>)
    requires
        balanced(s),
        resolved_pairs(s, pairs),
    ensures
        pairs.len() == opens(s, s.len() as int),
        forall|a: int, b: int|
            0 <= a < b < pairs.len() ==> {
                let (oa, ca) = #[trigger] pairs[a];
                let (ob, cb) = #[trigger] pairs[b];
                oa != ob && ca != cb && oa != cb && ca != ob
            },
{
    let n = s.len() as int;
    lemma_close_positions(s, n);
    assert forall|a: int, b: int| 0 <= a < b < pairs.len() implies {
        let (oa, ca) = #[trigger] pairs[a];
        let (ob, cb) = #[trigger] pairs[b];
        oa != ob && ca != cb && oa != cb && ca != ob
    } by {
        let (oa, ca) = pairs[a];
        let (ob, cb) = pairs[b];
        assert(close_positions(s, n)[a] < close_positions(s, n)[b]);
        assert(matched(s, oa as int, ca as int));
        assert(matched(s, ob as int, cb as int));
        if oa == ob {
            let m = ca + 1;
            assert(depth(s, m) == depth(s, ca as int) - 1);
            assert(depth(s, m) >= depth(s, ob as int) + 1);
        }
    }
}

/// Partner table for `s`: entry `i` holds the partner of the bracket at `i`,
/// and no other entry holds anything.
pub open spec fn partners_of(s: Seq<char>, t: Seq<Option<usize>>) -> bool {
    &&& t.len() == s.len()
    &&& forall|j: int|
        0 <= j < s.len() ==> {
            &&& (#[trigger] t[j] is Some <==> (s[j] == '[' || s[j] == ']'))
            &&& (s[j] == '[' && t[j] is Some ==> matched(s, j, t[j]->0 as int))
            &&& (s[j] == ']' && t[j] is Some ==> matched(s, t[j]->0 as int, j))
        }
}

/// A bracket has at most one partner: an opening bracket closes at one place,
/// and a closing bracket closes one opening bracket.
pub proof fn lemma_matched_unique(s: Seq<char>, o1: int, c1: int, o2: int, c2: int)
    requires
        matched(s, o1, c1),
        matched(s, o2, c2),
        o1 == o2 || c1 == c2,
    ensures
        o1 == o2 && c1 == c2,
{
    if o1 == o2 && c1 != c2 {
        let a = if c1 < c2 { c1 } else { c2 };
        assert(depth(s, a + 1) == depth(s, a) - 1);
        assert(depth(s, a + 1) >= depth(s, o1) + 1);
    }
    if c1 == c2 && o1 != o2 {
        let (a, b) = if o1 < o2 { (o1, o2) } else { (o2, o1) };
        assert(depth(s, b) >= depth(s, a) + 1);
    }
}

/// A program has at most one partner table.
pub proof fn lemma_partners_unique(s: Seq<char>, t1: Seq<Option<usize>>, t2: Seq<Option<usize>>)
    requires
        partners_of(s, t1),
        partners_of(s, t2),
    ensures
        t1 == t2,
{
    assert forall|j: int| 0 <= j < s.len() implies t1[j] == t2[j] by {
        assert(t1[j] is Some <==> t2[j] is Some);
        if t1[j] is Some {
            if s[j] == '[' {
                lemma_matched_unique(s, j, t1[j]->0 as int, j, t2[j]->0 as int);
            } else {
                lemma_matched_unique(s, t1[j]->0 as int, j, t2[j]->0 as int, j);
            }
        }
    }
    assert(t1 =~= t2);
}

/// Matches the brackets of `s` in one left-to-right pass with a stack of
/// pending opening positions, giving both the pair list and the partner table.
fn scan(s: &Vec<char>) -> (r: Result<(Vec<(usize, usize)>, Vec<Option<usize>>), Error>)
    ensures
        match r {
            Ok((pairs, partner)) => balanced(s@) && resolved_pairs(s@, pairs@) && partners_of(
                s@,
                partner@,
            ),
            Err(Error::MismatchedBrackets(p)) => resolution_error(s@, p as int),
        },
{
    let mut pairs: Vec<(usize, usize)> = Vec::new();
    let mut partner: Vec<Option<usize>> = Vec::new();
    let mut stack: Vec<usize> = Vec::new();
    let n = s.len();
    let mut i: usize = 0;
    while i < n
        invariant
            n == s@.len(),
            0 <= i <= n,
            forall|m: int| 0 <= m <= i ==> #[trigger] depth(s@, m) >= 0,
            stack@.len() == depth(s@, i as int),
            forall|k: int|
                0 <= k < stack@.len() ==> {
                    &&& #[trigger] stack@[k] < i
                    &&& s@[stack@[k] as int] == '['
                    &&& depth(s@, stack@[k] as int) == k
                    &&& partner@[stack@[k] as int] is None
                },
            forall|k: int, m: int|
                0 <= k < stack@.len() && #[trigger] stack@[k] < m <= i ==> #[trigger] depth(
                    s@,
                    m,
                ) >= k + 1,
            pairs@.len() == close_positions(s@, i as int).len(),
            forall|k: int|
                0 <= k < pairs@.len() ==> {
                    &&& #[trigger] pairs@[k].1 as int == close_positions(s@, i as int)[k]
                    &&& matched(s@, pairs@[k].0 as int, pairs@[k].1 as int)
                },
            partner@.len() == i,
            forall|j: int|
                0 <= j < i ==> {
                    &&& (#[trigger] partner@[j] is Some ==> (s@[j] == '[' || s@[j] == ']'))
                    &&& (s@[j] == ']' ==> partner@[j] is Some)
                    &&& (s@[j] == '[' && partner@[j] is None ==> exists|k: int|
                        0 <= k < stack@.len() && #[trigger] stack@[k] == j)
                    &&& (s@[j] == '[' && partner@[j] is Some ==> matched(
                        s@,
                        j,
                        partner@[j]->0 as int,
                    ))
                    &&& (s@[j] == ']' && partner@[j] is Some ==> matched(
                        s@,
                        partner@[j]->0 as int,
                        j,
                    ))
                },
        decreases n - i,
    {
        let c = s[i];
        proof {
            assert(depth(s@, i + 1) == depth(s@, i as int) + if c == '[' { 1int } else if c
                == ']' { -1int } else { 0int });
        }
        let ghost old_stack = stack@;
        let ghost old_partner = partner@;
        if c == '[' {
            stack.push(i);
            partner.push(None);
            proof {
                assert forall|j: int|
                    0 <= j < i + 1 && s@[j] == '[' && #[trigger] partner@[j] is None implies exists|
                    k: int,
                | 0 <= k < stack@.len() && #[trigger] stack@[k] == j by {
                    if j == i {
                        assert(stack@[stack@.len() - 1] == j);
                    } else {
                        assert(old_partner[j] == partner@[j]);
                        let k = choose|k: int| 0 <= k < old_stack.len() && old_stack[k] == j;
                        assert(stack@[k] == old_stack[k]);
                    }
                }
            }
        } else if c == ']' {
            if stack.len() == 0 {
                proof {
                    assert(orphan_close(s@, i as int));
                    assert(!never_negative(s@)) by {
                        assert(depth(s@, i + 1) < 0);
                    }
                }
                return Err(Error::MismatchedBrackets(i));
            }
            let top = stack.pop().unwrap();
            pairs.push((top, i));
            partner.set(top, Some(i));
            partner.push(Some(top));
            proof {
                assert(matched(s@, top as int, i as int));
                assert forall|j: int|
                    0 <= j < i + 1 && s@[j] == '[' && #[trigger] partner@[j] is None implies exists|
                    k: int,
                | 0 <= k < stack@.len() && #[trigger] stack@[k] == j by {
                    let k = choose|k: int| 0 <= k < old_stack.len() && old_stack[k] == j;
                    assert(old_stack[k] == j);
                    if k == old_stack.len() - 1 {
                        assert(partner@[top as int] is Some);
                    }
                    assert(stack@[k] == j);
                }
                assert forall|k: int| 0 <= k < stack@.len() implies partner@[
                    #[trigger] stack@[k] as int
                ] is None by {
                    assert(old_stack[k] == stack@[k]);
                    assert(depth(s@, old_stack[k] as int) != depth(
                        s@,
                        old_stack[old_stack.len() - 1] as int,
                    ));
                }
            }
        } else {
            partner.push(None);
        }
        i += 1;
    }
    if stack.len() > 0 {
        let top = stack[stack.len() - 1];
        return Err(Error::MismatchedBrackets(top));
    }
    Ok((pairs, partner))
}

/// Jump table of a program: for every bracket position, the position of its
/// partner bracket, looked up in constant time in either direction.
pub struct JumpTable {
    partner: Vec<Option<usize>>,
}

impl View for JumpTable {
    type V = Seq<Option<usize>>;

    closed spec fn view(&self) -> Seq<Option<usize>> {
        self.partner@
    }
}

impl JumpTable {
    /// Resolves the brackets of `program` into a jump table.
    pub fn build(program: &Vec<char>) -> (r: Result<JumpTable, Error>)
        ensures
            match r {
                Ok(t) => balanced(program@) && partners_of(program@, t@),
                Err(Error::MismatchedBrackets(p)) => resolution_error(program@, p as int),
            },
    {
        match scan(program) {
            Ok((_, partner)) => Ok(JumpTable { partner }),
            Err(e) => Err(e),
        }
    }

    /// The partner of the bracket at `pos`, or `None` where no bracket stands.
    pub fn partner(&self, pos: usize) -> (r: Option<usize>)
        requires
            pos < self@.len(),
        ensures
            r == self@[pos as int],
    {
        self.partner[pos]
    }
}

/// The symbols of `source_code`, one per character.
pub fn symbols(source_code: &str) -> (r: Vec<char>)
    ensures
        r@ == source_code@,
{
    let mut r: Vec<char> = Vec::new();
    for c in it: source_code.chars()
        invariant
            it.seq() == source_code@,
            r@ == it.seq().take(it.index() as int),
    {
        r.push(c);
    }
    r
}

/// Pairs every opening bracket of `source_code` with its closing bracket,
/// listed in the order of the closing brackets; fails on the first closing
/// bracket without a partner, or else on the innermost bracket left open.
pub fn generate_loop_lookup_table(source_code: &str) -> (r: Result<Vec<(usize, usize)>, Error>)
    ensures
        resolution_of(source_code@, r),
{
    let s = symbols(source_code);
    match scan(&s) {
        Ok((pairs, _)) => Ok(pairs),
        Err(e) => Err(e),
    }
}

} // verus!
