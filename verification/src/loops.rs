//! Loop structure: which loop end closes which loop begin.
//!
//! The structure is stated over the nesting depth of a program, and the
//! resolution pass is proved to compute exactly the pairs that this
//! statement admits.

use crate::error::{ErrorKind, EvalError};
use crate::parser::Node;
use std::collections::HashMap;
use vstd::prelude::*;

verus! {

broadcast use vstd::std_specs::hash::group_hash_axioms;

/// What an instruction adds to the nesting depth.
pub open spec fn bracket_weight(node: Node) -> int {
    match node {
        Node::Loop => 1,
        Node::EndLoop => -1,
        _ => 0,
    }
}

/// The nesting depth after the first `k` instructions: the number of loop
/// begins among them minus the number of loop ends.
pub open spec fn depth(prog: Seq<Node>, k: int) -> int
    decreases k,
{
    if k <= 0 {
        0
    } else {
        depth(prog, k - 1) + bracket_weight(prog[k - 1])
    }
}

/// The loop end at `end` closes the loop begin at `begin`: it is the first
/// place after `begin` at which the depth is back to what it was before.
pub open spec fn matched(prog: Seq<Node>, begin: int, end: int) -> bool {
    &&& 0 <= begin < end < prog.len()
    &&& prog[begin] == Node::Loop
    &&& prog[end] == Node::EndLoop
    &&& depth(prog, end + 1) == depth(prog, begin)
    &&& forall|k: int| begin < k <= end ==> #[trigger] depth(prog, k) > depth(prog, begin)
}

/// No prefix of the program closes more loops than it has opened.
pub open spec fn no_unmatched_end(prog: Seq<Node>) -> bool {
    forall|k: int| 0 <= k <= prog.len() ==> #[trigger] depth(prog, k) >= 0
}

/// Every loop begin is closed and every loop end closes one.
pub open spec fn balanced(prog: Seq<Node>) -> bool {
    &&& no_unmatched_end(prog)
    &&& depth(prog, prog.len() as int) == 0
}

/// `end` is the first loop end that has no loop begin to close.
pub open spec fn first_unmatched_end(prog: Seq<Node>, end: int) -> bool {
    &&& 0 <= end < prog.len()
    &&& depth(prog, end + 1) < 0
    &&& forall|k: int| 0 <= k <= end ==> #[trigger] depth(prog, k) >= 0
}

/// `begin` is the last loop begin that is never closed, in a program that
/// has no unmatched loop end.
pub open spec fn last_unclosed_begin(prog: Seq<Node>, begin: int) -> bool {
    &&& 0 <= begin < prog.len()
    &&& prog[begin] == Node::Loop
    &&& no_unmatched_end(prog)
    &&& depth(prog, prog.len() as int) == depth(prog, begin) + 1
    &&& forall|k: int| begin < k <= prog.len() ==> #[trigger] depth(prog, k) > depth(prog, begin)
}

/// The position of the loop end that closes the loop begin at `begin`.
pub open spec fn matching_end(prog: Seq<Node>, begin: int) -> int {
    choose|end: int| matched(prog, begin, end)
}

/// The position of the loop begin that the loop end at `end` closes.
pub open spec fn matching_begin(prog: Seq<Node>, end: int) -> int {
    choose|begin: int| matched(prog, begin, end)
}

/// The failure that resolving `prog` ends in, if any. An unmatched loop end
/// takes precedence: it is met during the scan, an unclosed loop begin is
/// known only once the scan is over.
pub open spec fn resolution_error(prog: Seq<Node>) -> Option<EvalError> {
    if exists|end: int| first_unmatched_end(prog, end) {
        let end = choose|end: int| first_unmatched_end(prog, end);
        Some(EvalError { kind: ErrorKind::UnmatchedLoopEnd, position: end as usize })
    } else if exists|begin: int| last_unclosed_begin(prog, begin) {
        let begin = choose|begin: int| last_unclosed_begin(prog, begin);
        Some(EvalError { kind: ErrorKind::UnmatchedLoopBegin, position: begin as usize })
    } else {
        None
    }
}

/// The depth changes by the weight of the instruction that is passed.
pub proof fn lemma_depth_step(prog: Seq<Node>, k: int)
    requires
        0 <= k,
    ensures
        depth(prog, k + 1) == depth(prog, k) + bracket_weight(prog[k]),
{
}

/// A loop begin has at most one loop end.
pub proof fn lemma_end_is_unique(prog: Seq<Node>, begin: int, end1: int, end2: int)
    requires
        matched(prog, begin, end1),
        matched(prog, begin, end2),
    ensures
        end1 == end2,
{
    if end1 < end2 {
        assert(depth(prog, end1 + 1) > depth(prog, begin));
    } else if end2 < end1 {
        assert(depth(prog, end2 + 1) > depth(prog, begin));
    }
}

/// A loop end has at most one loop begin.
pub proof fn lemma_begin_is_unique(prog: Seq<Node>, begin1: int, begin2: int, end: int)
    requires
        matched(prog, begin1, end),
        matched(prog, begin2, end),
    ensures
        begin1 == begin2,
{
    if begin1 < begin2 {
        assert(depth(prog, begin2) > depth(prog, begin1));
    } else if begin2 < begin1 {
        assert(depth(prog, begin1) > depth(prog, begin2));
    }
}

/// There is at most one first unmatched loop end.
pub proof fn lemma_first_unmatched_end_is_unique(prog: Seq<Node>, end1: int, end2: int)
    requires
        first_unmatched_end(prog, end1),
        first_unmatched_end(prog, end2),
    ensures
        end1 == end2,
{
    if end1 < end2 {
        assert(depth(prog, end1 + 1) >= 0);
    } else if end2 < end1 {
        assert(depth(prog, end2 + 1) >= 0);
    }
}

/// There is at most one last unclosed loop begin.
pub proof fn lemma_last_unclosed_begin_is_unique(prog: Seq<Node>, begin1: int, begin2: int)
    requires
        last_unclosed_begin(prog, begin1),
        last_unclosed_begin(prog, begin2),
    ensures
        begin1 == begin2,
{
    if begin1 < begin2 {
        assert(depth(prog, begin2) > depth(prog, begin1));
    } else if begin2 < begin1 {
        assert(depth(prog, begin1) > depth(prog, begin2));
    }
}

/// The three outcomes of resolution exclude each other, and one of them
/// always holds.
pub proof fn lemma_resolution_cases(prog: Seq<Node>)
    ensures
        balanced(prog) <==> resolution_error(prog) is None,
        balanced(prog) ==> !(exists|end: int| first_unmatched_end(prog, end)),
        balanced(prog) ==> !(exists|begin: int| last_unclosed_begin(prog, begin)),
        no_unmatched_end(prog) <==> !(exists|end: int| first_unmatched_end(prog, end)),
{
    if no_unmatched_end(prog) {
        assert forall|end: int| !first_unmatched_end(prog, end) by {
            if first_unmatched_end(prog, end) {
                assert(depth(prog, end + 1) >= 0);
            }
        }
        if depth(prog, prog.len() as int) > 0 {
            lemma_open_loop_exists(prog, prog.len() as int);
        }
    } else {
        let k = choose|k: int| 0 <= k <= prog.len() && depth(prog, k) < 0;
        lemma_negative_depth_has_first(prog, k);
    }
}

/// Where the depth is negative, some loop end before that is the first
/// unmatched one.
proof fn lemma_negative_depth_has_first(prog: Seq<Node>, k: int)
    requires
        0 <= k <= prog.len(),
        depth(prog, k) < 0,
    ensures
        exists|end: int| first_unmatched_end(prog, end),
    decreases k,
{
    if exists|j: int| 0 <= j < k && depth(prog, j) < 0 {
        let j = choose|j: int| 0 <= j < k && depth(prog, j) < 0;
        lemma_negative_depth_has_first(prog, j);
    } else {
        assert(first_unmatched_end(prog, k - 1));
    }
}

/// Where the depth over the first `n` instructions is positive and never
/// negative on the way, some loop begin among them is still open at `n`.
proof fn lemma_open_loop_at(prog: Seq<Node>, n: int, k: int) -> (begin: int)
    requires
        0 <= k <= n <= prog.len(),
        forall|j: int| 0 <= j <= n ==> #[trigger] depth(prog, j) >= 0,
        depth(prog, n) > 0,
        forall|j: int| k <= j <= n ==> #[trigger] depth(prog, j) >= depth(prog, n),
    ensures
        0 <= begin < n,
        prog[begin] == Node::Loop,
        depth(prog, begin) + 1 == depth(prog, n),
        forall|j: int| begin < j <= n ==> #[trigger] depth(prog, j) > depth(prog, begin),
    decreases k,
{
    if k == 0 {
        assert(depth(prog, 0) >= depth(prog, n));
        0
    } else {
        lemma_depth_step(prog, k - 1);
        if depth(prog, k - 1) >= depth(prog, n) {
            lemma_open_loop_at(prog, n, k - 1)
        } else {
            k - 1
        }
    }
}

/// A program that ends at positive depth without an unmatched loop end has
/// a last unclosed loop begin.
proof fn lemma_open_loop_exists(prog: Seq<Node>, n: int)
    requires
        n == prog.len(),
        no_unmatched_end(prog),
        depth(prog, n) > 0,
    ensures
        exists|begin: int| last_unclosed_begin(prog, begin),
{
    let begin = lemma_open_loop_at(prog, n, n);
    assert(last_unclosed_begin(prog, begin));
}

/// In a balanced program every loop begin has its loop end.
pub proof fn lemma_begin_has_end(prog: Seq<Node>, begin: int)
    requires
        balanced(prog),
        0 <= begin < prog.len(),
        prog[begin] == Node::Loop,
    ensures
        exists|end: int| matched(prog, begin, end),
{
    lemma_depth_step(prog, begin);
    let end = lemma_search_end(prog, begin, begin + 1);
    assert(matched(prog, begin, end));
}

/// The search for the loop end of `begin`, which has come as far as `k`
/// without finding the depth back at its level.
proof fn lemma_search_end(prog: Seq<Node>, begin: int, k: int) -> (end: int)
    requires
        balanced(prog),
        0 <= begin < k <= prog.len(),
        prog[begin] == Node::Loop,
        forall|j: int| begin < j <= k ==> #[trigger] depth(prog, j) > depth(prog, begin),
    ensures
        matched(prog, begin, end),
    decreases prog.len() - k,
{
    assert(depth(prog, begin) >= 0);
    if k == prog.len() {
        assert(depth(prog, k) > depth(prog, begin));
        assert(false);
        begin
    } else {
        lemma_depth_step(prog, k);
        if depth(prog, k + 1) > depth(prog, begin) {
            lemma_search_end(prog, begin, k + 1)
        } else {
            assert(depth(prog, k) > depth(prog, begin));
            k
        }
    }
}

/// In a balanced program every loop end has its loop begin.
pub proof fn lemma_end_has_begin(prog: Seq<Node>, end: int)
    requires
        balanced(prog),
        0 <= end < prog.len(),
        prog[end] == Node::EndLoop,
    ensures
        exists|begin: int| matched(prog, begin, end),
{
    lemma_depth_step(prog, end);
    assert(depth(prog, end + 1) >= 0);
    let begin = lemma_search_begin(prog, end, end);
    assert(matched(prog, begin, end));
}

/// The search for the loop begin of `end`, backwards, which has come as far
/// as `k` without finding the depth down at the level after `end`.
proof fn lemma_search_begin(prog: Seq<Node>, end: int, k: int) -> (begin: int)
    requires
        balanced(prog),
        0 <= k <= end < prog.len(),
        prog[end] == Node::EndLoop,
        forall|j: int| k <= j <= end ==> #[trigger] depth(prog, j) > depth(prog, end + 1),
    ensures
        matched(prog, begin, end),
    decreases k,
{
    lemma_depth_step(prog, end);
    if k == 0 {
        assert(depth(prog, 0) > depth(prog, end + 1));
        assert(depth(prog, end + 1) >= 0);
        assert(false);
        end
    } else {
        lemma_depth_step(prog, k - 1);
        if depth(prog, k - 1) > depth(prog, end + 1) {
            lemma_search_begin(prog, end, k - 1)
        } else {
            assert(depth(prog, k) > depth(prog, end + 1));
            k - 1
        }
    }
}

/// The loop map of a program: for each loop begin the position of its loop
/// end, and for each loop end the position of its loop begin. Both
/// directions are answered by one lookup.
#[derive(Debug)]
pub struct LoopMap {
    ends: HashMap<usize, usize>,
    begins: HashMap<usize, usize>,
}

impl View for LoopMap {
    type V = Map<usize, usize>;

    /// The map from each loop begin to its loop end.
    closed spec fn view(&self) -> Map<usize, usize> {
        self.ends@
    }
}

impl LoopMap {
    /// The map the other way round, from each loop end to its loop begin.
    pub closed spec fn backward(&self) -> Map<usize, usize> {
        self.begins@
    }

    /// The two directions hold the same pairs.
    #[verifier::type_invariant]
    pub open spec fn is_bijection(&self) -> bool {
        forall|begin: usize, end: usize|
            #![trigger self@.contains_pair(begin, end)]
            #![trigger self.backward().contains_pair(end, begin)]
            self@.contains_pair(begin, end) <==> self.backward().contains_pair(end, begin)
    }

    /// The map holds exactly the matched pairs of `prog`.
    pub open spec fn resolves(&self, prog: Seq<Node>) -> bool {
        &&& forall|begin: usize, end: usize|
            #![trigger self@.contains_pair(begin, end)]
            #![trigger matched(prog, begin as int, end as int)]
            self@.contains_pair(begin, end) <==> matched(prog, begin as int, end as int)
        &&& forall|begin: usize, end: usize|
            #![trigger self.backward().contains_pair(end, begin)]
            #![trigger matched(prog, begin as int, end as int)]
            self.backward().contains_pair(end, begin) <==> matched(prog, begin as int, end as int)
    }

    /// On the loop map of a balanced program the lookup of a loop begin
    /// finds its loop end.
    pub proof fn lemma_lookup_end(&self, prog: Seq<Node>, begin: usize)
        requires
            balanced(prog),
            self.resolves(prog),
            begin < prog.len() <= usize::MAX,
            prog[begin as int] == Node::Loop,
        ensures
            self@.contains_key(begin),
            self@[begin] == matching_end(prog, begin as int),
            matched(prog, begin as int, self@[begin] as int),
    {
        lemma_begin_has_end(prog, begin as int);
        let end = matching_end(prog, begin as int);
        assert(self@.contains_pair(begin, end as usize));
    }

    /// On the loop map of a balanced program the lookup of a loop end finds
    /// its loop begin.
    pub proof fn lemma_lookup_begin(&self, prog: Seq<Node>, end: usize)
        requires
            balanced(prog),
            self.resolves(prog),
            end < prog.len(),
            prog[end as int] == Node::EndLoop,
        ensures
            self.backward().contains_key(end),
            self.backward()[end] == matching_begin(prog, end as int),
            matched(prog, self.backward()[end] as int, end as int),
    {
        lemma_end_has_begin(prog, end as int);
        let begin = matching_begin(prog, end as int);
        assert(self.backward().contains_pair(end, begin as usize));
    }

    /// A map without any pair: the loop map of a program without loops.
    pub fn new() -> (map: LoopMap)
        ensures
            map@ == Map::<usize, usize>::empty(),
            map.backward() == Map::<usize, usize>::empty(),
    {
        LoopMap { ends: HashMap::new(), begins: HashMap::new() }
    }

    /// The loop end that closes the loop begin at `begin`.
    pub fn end_of(&self, begin: usize) -> (end: Option<usize>)
        ensures
            end == (if self@.contains_key(begin) {
                Some(self@[begin])
            } else {
                None
            }),
    {
        match self.ends.get(&begin) {
            Some(end) => Some(*end),
            None => None,
        }
    }

    /// The loop begin that the loop end at `end` closes.
    pub fn begin_of(&self, end: usize) -> (begin: Option<usize>)
        ensures
            begin == (if self.backward().contains_key(end) {
                Some(self.backward()[end])
            } else {
                None
            }),
    {
        match self.begins.get(&end) {
            Some(begin) => Some(*begin),
            None => None,
        }
    }

    /// The pairs as a hash map from loop begin to loop end.
    pub fn pairs(&self) -> (pairs: &HashMap<usize, usize>)
        ensures
            pairs@ == self@,
    {
        &self.ends
    }
}

/// A program of which some prefix holds more loop ends than loop begins does
/// not resolve: resolution fails with `UnmatchedLoopEnd`, at the loop end
/// that ends the shortest such prefix.
pub proof fn lemma_unmatched_end_fails(prog: Seq<Node>, k: int)
    requires
        prog.len() <= usize::MAX,
        0 <= k <= prog.len(),
        depth(prog, k) < 0,
    ensures
        resolution_error(prog) matches Some(e) && e.kind == ErrorKind::UnmatchedLoopEnd
            && first_unmatched_end(prog, e.position as int) && e.position < k,
{
    lemma_negative_depth_has_first(prog, k);
    let end = choose|end: int| first_unmatched_end(prog, end);
    if end >= k {
        assert(depth(prog, k) >= 0);
    }
}

/// A program in which some loop begin is never closed, and which has no
/// unmatched loop end, does not resolve: resolution fails with
/// `UnmatchedLoopBegin`, at the last loop begin left open.
pub proof fn lemma_unclosed_begin_fails(prog: Seq<Node>, begin: int)
    requires
        prog.len() <= usize::MAX,
        0 <= begin < prog.len(),
        prog[begin] == Node::Loop,
        forall|end: int| !matched(prog, begin, end),
        no_unmatched_end(prog),
    ensures
        resolution_error(prog) matches Some(e) && e.kind == ErrorKind::UnmatchedLoopBegin
            && last_unclosed_begin(prog, e.position as int),
{
    lemma_resolution_cases(prog);
    if balanced(prog) {
        lemma_begin_has_end(prog, begin);
    }
    assert(depth(prog, prog.len() as int) >= 0);
    lemma_open_loop_exists(prog, prog.len() as int);
}

/// Resolution fails with `UnmatchedLoopBegin` only on a program that has
/// been scanned to its end without meeting an unmatched loop end.
pub proof fn lemma_unclosed_begin_is_found_last(prog: Seq<Node>)
    requires
        resolution_error(prog) matches Some(e) && e.kind == ErrorKind::UnmatchedLoopBegin,
    ensures
        no_unmatched_end(prog),
        depth(prog, prog.len() as int) > 0,
{
    lemma_resolution_cases(prog);
    let begin = choose|begin: int| last_unclosed_begin(prog, begin);
    assert(depth(prog, begin) >= 0);
}

/// On a balanced program the loop map is a perfect bijection between the
/// loop begins and the loop ends: the lookup of every loop begin and of
/// every loop end of the program succeeds, what it finds is the matching
/// partner, and the lookup of that partner leads back.
pub proof fn lemma_loop_map_is_bijection(prog: Seq<Node>, map: LoopMap)
    requires
        prog.len() <= usize::MAX,
        balanced(prog),
        map.resolves(prog),
    ensures
        forall|begin: usize|
            begin < prog.len() && prog[begin as int] == Node::Loop
                ==> #[trigger] map@.contains_key(begin),
        forall|end: usize|
            end < prog.len() && prog[end as int] == Node::EndLoop
                ==> #[trigger] map.backward().contains_key(end),
        forall|begin: usize| #[trigger]
            map@.contains_key(begin) ==> {
                let end = map@[begin];
                &&& matched(prog, begin as int, end as int)
                &&& map.backward().contains_key(end)
                &&& map.backward()[end] == begin
            },
        forall|end: usize| #[trigger]
            map.backward().contains_key(end) ==> {
                let begin = map.backward()[end];
                &&& matched(prog, begin as int, end as int)
                &&& map@.contains_key(begin)
                &&& map@[begin] == end
            },
{
    assert forall|begin: usize|
        begin < prog.len() && prog[begin as int] == Node::Loop implies #[trigger] map@.contains_key(
        begin,
    ) by {
        map.lemma_lookup_end(prog, begin);
    }
    assert forall|end: usize|
        end < prog.len() && prog[end as int] == Node::EndLoop implies #[trigger] map.backward().contains_key(
        end,
    ) by {
        map.lemma_lookup_begin(prog, end);
    }
    assert forall|begin: usize| #[trigger] map@.contains_key(begin) implies {
        let end = map@[begin];
        &&& matched(prog, begin as int, end as int)
        &&& map.backward().contains_key(end)
        &&& map.backward()[end] == begin
    } by {
        let end = map@[begin];
        assert(map@.contains_pair(begin, end));
        assert(matched(prog, begin as int, end as int));
        assert(map.backward().contains_pair(end, begin));
    }
    assert forall|end: usize| #[trigger] map.backward().contains_key(end) implies {
        let begin = map.backward()[end];
        &&& matched(prog, begin as int, end as int)
        &&& map@.contains_key(begin)
        &&& map@[begin] == end
    } by {
        let begin = map.backward()[end];
        assert(map.backward().contains_pair(end, begin));
        assert(matched(prog, begin as int, end as int));
        assert(map@.contains_pair(begin, end));
    }
}

/// The loop begin at `begin` is open after the first `upto` instructions,
/// at nesting level `level`.
spec fn open_at(prog: Seq<Node>, begin: int, level: int, upto: int) -> bool {
    &&& 0 <= begin < upto
    &&& prog[begin] == Node::Loop
    &&& depth(prog, begin) == level
    &&& forall|k: int| begin < k <= upto ==> #[trigger] depth(prog, k) > level
}

/// The stack of the scan after the first `upto` instructions: the loop
/// begins that are open there, outermost first.
spec fn open_begins(prog: Seq<Node>, stack: Seq<usize>, upto: int) -> bool {
    &&& depth(prog, upto) == stack.len()
    &&& forall|level: int|
        0 <= level < stack.len() ==> open_at(prog, #[trigger] stack[level] as int, level, upto)
}

/// The two maps of the scan after the first `upto` instructions: the matched
/// pairs whose loop end is among these.
spec fn pairs_before(
    prog: Seq<Node>,
    forward: Map<usize, usize>,
    backward: Map<usize, usize>,
    upto: int,
) -> bool {
    &&& forall|begin: usize, end: usize| #[trigger]
        forward.contains_pair(begin, end) <==> matched(prog, begin as int, end as int) && end
            < upto
    &&& forall|begin: usize, end: usize| #[trigger]
        backward.contains_pair(end, begin) <==> matched(prog, begin as int, end as int) && end
            < upto
}

/// Passing an instruction that is no loop end leaves the pairs as they are.
proof fn lemma_scan_passes(
    prog: Seq<Node>,
    forward: Map<usize, usize>,
    backward: Map<usize, usize>,
    i: int,
)
    requires
        0 <= i < prog.len(),
        prog[i] != Node::EndLoop,
        pairs_before(prog, forward, backward, i),
    ensures
        pairs_before(prog, forward, backward, i + 1),
{
}

/// Passing a loop end adds the pair that it closes, and no other.
proof fn lemma_scan_closes(
    prog: Seq<Node>,
    forward: Map<usize, usize>,
    backward: Map<usize, usize>,
    begin: usize,
    i: usize,
)
    requires
        matched(prog, begin as int, i as int),
        pairs_before(prog, forward, backward, i as int),
    ensures
        pairs_before(prog, forward.insert(begin, i), backward.insert(i, begin), i + 1),
{
    assert forall|b: usize, e: usize| matched(prog, b as int, e as int) && e <= i implies (b
        == begin <==> e == i) by {
        if b == begin {
            lemma_end_is_unique(prog, b as int, e as int, i as int);
        }
        if e == i {
            lemma_begin_is_unique(prog, b as int, begin as int, e as int);
        }
    }
    assert forall|b: usize, e: usize| #[trigger]
        forward.insert(begin, i).contains_pair(b, e) <==> matched(prog, b as int, e as int) && e
            < i + 1 by {
        assert(forward.contains_pair(b, e) <==> matched(prog, b as int, e as int) && e < i);
    }
    assert forall|b: usize, e: usize| #[trigger]
        backward.insert(i, begin).contains_pair(e, b) <==> matched(prog, b as int, e as int) && e
            < i + 1 by {
        assert(backward.contains_pair(e, b) <==> matched(prog, b as int, e as int) && e < i);
    }
}

/// Resolves the loops of `prog` in one forward pass.
///
/// The pass succeeds exactly on balanced programs, and the map it returns
/// holds exactly their matched pairs. It fails at the first loop end that
/// closes nothing; failing that, at the last loop begin left open once the
/// whole program has been scanned.
pub fn resolve_loops(prog: &Vec<Node>) -> (result: Result<LoopMap, EvalError>)
    ensures
        match result {
            Ok(map) => balanced(prog@) && map.resolves(prog@),
            Err(e) => resolution_error(prog@) == Some(e),
        },
        balanced(prog@) ==> result is Ok,
        !no_unmatched_end(prog@) ==> (result matches Err(e) && e.kind == ErrorKind::UnmatchedLoopEnd
            && first_unmatched_end(prog@, e.position as int)),
        no_unmatched_end(prog@) && !balanced(prog@) ==> (result matches Err(e) && e.kind
            == ErrorKind::UnmatchedLoopBegin && last_unclosed_begin(prog@, e.position as int)),
{
    let mut stack: Vec<usize> = Vec::new();
    let mut ends: HashMap<usize, usize> = HashMap::new();
    let mut begins: HashMap<usize, usize> = HashMap::new();
    let mut i: usize = 0;
    while i < prog.len()
        invariant
            i <= prog.len(),
            forall|k: int| 0 <= k <= i ==> #[trigger] depth(prog@, k) >= 0,
            open_begins(prog@, stack@, i as int),
            pairs_before(prog@, ends@, begins@, i as int),
        decreases prog.len() - i,
    {
        proof {
            lemma_depth_step(prog@, i as int);
        }
        match prog[i] {
            Node::Loop => {
                proof {
                    lemma_scan_passes(prog@, ends@, begins@, i as int);
                }
                stack.push(i);
            },
            Node::EndLoop => {
                match stack.pop() {
                    Some(begin) => {
                        proof {
                            assert(open_at(prog@, begin as int, stack.len() as int, i as int));
                            lemma_scan_closes(prog@, ends@, begins@, begin, i);
                        }
                        ends.insert(begin, i);
                        begins.insert(i, begin);
                    },
                    None => {
                        proof {
                            assert(first_unmatched_end(prog@, i as int));
                            assert forall|end: int| first_unmatched_end(prog@, end) implies end
                                == i by {
                                lemma_first_unmatched_end_is_unique(prog@, end, i as int);
                            }
                        }
                        return Err(EvalError { kind: ErrorKind::UnmatchedLoopEnd, position: i });
                    },
                }
            },
            _ => {
                proof {
                    lemma_scan_passes(prog@, ends@, begins@, i as int);
                }
            },
        }
        i += 1;
    }
    proof {
        lemma_resolution_cases(prog@);
    }
    if stack.len() > 0 {
        let begin = stack[stack.len() - 1];
        proof {
            assert(open_at(prog@, begin as int, stack.len() - 1, i as int));
            assert(last_unclosed_begin(prog@, begin as int));
            assert forall|b: int| last_unclosed_begin(prog@, b) implies b == begin by {
                lemma_last_unclosed_begin_is_unique(prog@, b, begin as int);
            }
        }
        Err(EvalError { kind: ErrorKind::UnmatchedLoopBegin, position: begin })
    } else {
        Ok(LoopMap { ends, begins })
    }
}

} // verus!
