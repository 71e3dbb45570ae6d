use vstd::prelude::*;

verus! {

/// Lexicographic order of character sequences, characters compared by code
/// point: the order of `String`.
pub open spec fn word_less(a: Seq<char>, b: Seq<char>) -> bool
    decreases a.len(),
{
    if b.len() == 0 {
        false
    } else if a.len() == 0 {
        true
    } else if a[0] != b[0] {
        a[0] < b[0]
    } else {
        word_less(a.drop_first(), b.drop_first())
    }
}

pub proof fn lemma_word_less_irreflexive(a: Seq<char>)
    ensures
        !word_less(a, a),
    decreases a.len(),
{
    if a.len() > 0 {
        lemma_word_less_irreflexive(a.drop_first());
    }
}

pub proof fn lemma_word_less_total(a: Seq<char>, b: Seq<char>)
    ensures
        a == b || word_less(a, b) || word_less(b, a),
        !(word_less(a, b) && word_less(b, a)),
    decreases a.len(),
{
    if a.len() > 0 && b.len() > 0 && a[0] == b[0] {
        lemma_word_less_total(a.drop_first(), b.drop_first());
        if a.drop_first() == b.drop_first() {
            assert(a =~= seq![a[0]] + a.drop_first());
            assert(b =~= seq![b[0]] + b.drop_first());
        }
    } else if a.len() == 0 && b.len() == 0 {
        assert(a =~= b);
    }
}

pub proof fn lemma_word_less_transitive(a: Seq<char>, b: Seq<char>, c: Seq<char>)
    requires
        word_less(a, b),
        word_less(b, c),
    ensures
        word_less(a, c),
    decreases a.len(),
{
    if a.len() > 0 && a[0] == b[0] && b[0] == c[0] {
        lemma_word_less_transitive(a.drop_first(), b.drop_first(), c.drop_first());
    }
}

/// Compares two character sequences in the order `word_less`: negative,
/// zero or positive as `a` comes before, equals or comes after `b`.
pub fn compare_words(a: &[char], b: &[char]) -> (r: i8)
    ensures
        r < 0 <==> word_less(a@, b@),
        r == 0 <==> a@ == b@,
        r > 0 <==> word_less(b@, a@),
{
    proof {
        lemma_word_less_total(a@, b@);
    }
    let mut i: usize = 0;
    assert(a@.skip(0) =~= a@);
    assert(b@.skip(0) =~= b@);
    while i < a.len() && i < b.len() && a[i] == b[i]
        invariant
            i <= a@.len(),
            i <= b@.len(),
            a@.take(i as int) == b@.take(i as int),
            word_less(a@, b@) == word_less(a@.skip(i as int), b@.skip(i as int)),
            word_less(b@, a@) == word_less(b@.skip(i as int), a@.skip(i as int)),
        decreases a@.len() - i,
    {
        assert(a@.skip(i as int).drop_first() =~= a@.skip(i + 1));
        assert(b@.skip(i as int).drop_first() =~= b@.skip(i + 1));
        assert(a@.take(i + 1) =~= a@.take(i as int).push(a@[i as int]));
        assert(b@.take(i + 1) =~= b@.take(i as int).push(b@[i as int]));
        i += 1;
    }
    if i == a.len() && i == b.len() {
        assert(a@ =~= a@.take(i as int));
        assert(b@ =~= b@.take(i as int));
        0
    } else if i == a.len() {
        assert(a@.skip(i as int).len() == 0);
        -1
    } else if i == b.len() {
        assert(b@.skip(i as int).len() == 0);
        1
    } else {
        assert(a@.skip(i as int)[0] == a@[i as int]);
        assert(b@.skip(i as int)[0] == b@[i as int]);
        if a[i] < b[i] {
            -1
        } else {
            1
        }
    }
}

} // verus!
