//! Three-way comparison results and lexicographic comparison of sequences,
//! the foundation for the version and package total orders.

use vstd::prelude::*;

verus! {

/// Result of a three-way comparison.
#[derive(Clone, Copy, Debug, PartialEq, Eq, Structural)]
pub enum Ordering {
    Less,
    Equal,
    Greater,
}

/// Three-way comparison of two characters by code point.
pub open spec fn char_cmp(a: char, b: char) -> Ordering {
    if (a as int) < (b as int) {
        Ordering::Less
    } else if (a as int) > (b as int) {
        Ordering::Greater
    } else {
        Ordering::Equal
    }
}

/// `char_cmp` as a function value, shared by every use site.
pub open spec fn char_cmp_fn() -> spec_fn(char, char) -> Ordering {
    |a: char, b: char| char_cmp(a, b)
}

/// Lexicographic three-way comparison of two sequences, element by element
/// with `f`; a strict prefix compares less than the longer sequence.
pub open spec fn seq_cmp<T>(a: Seq<T>, b: Seq<T>, f: spec_fn(T, T) -> Ordering) -> Ordering
    decreases a.len(),
{
    if a.len() == 0 && b.len() == 0 {
        Ordering::Equal
    } else if a.len() == 0 {
        Ordering::Less
    } else if b.len() == 0 {
        Ordering::Greater
    } else {
        let c = f(a[0], b[0]);
        if c is Equal {
            seq_cmp(a.drop_first(), b.drop_first(), f)
        } else {
            c
        }
    }
}

/// An element comparison is sound when it reports `Equal` exactly on equal
/// elements, is antisymmetric, and its strict part is transitive.
pub open spec fn cmp_sound<T>(f: spec_fn(T, T) -> Ordering) -> bool {
    &&& forall|x: T, y: T| #[trigger] f(x, y) is Equal <==> x == y
    &&& forall|x: T, y: T| #[trigger] f(x, y) is Less <==> #[trigger] f(y, x) is Greater
    &&& forall|x: T, y: T, z: T|
        #[trigger] f(x, y) is Less && #[trigger] f(y, z) is Less ==> f(x, z) is Less
}

pub proof fn lemma_char_cmp_sound()
    ensures
        cmp_sound(char_cmp_fn()),
{
    let f = char_cmp_fn();
    assert forall|x: char, y: char| #[trigger] f(x, y) is Equal <==> x == y by {
        assert(f(x, y) == char_cmp(x, y));
    }
    assert forall|x: char, y: char| #[trigger] f(x, y) is Less <==> #[trigger] f(
        y,
        x,
    ) is Greater by {
        assert(f(x, y) == char_cmp(x, y));
        assert(f(y, x) == char_cmp(y, x));
    }
}

pub proof fn lemma_seq_cmp_equal<T>(a: Seq<T>, b: Seq<T>, f: spec_fn(T, T) -> Ordering)
    requires
        cmp_sound(f),
    ensures
        seq_cmp(a, b, f) is Equal <==> a == b,
    decreases a.len(),
{
    if a.len() == 0 && b.len() == 0 {
        assert(a =~= b);
    } else if a.len() == 0 || b.len() == 0 {
        assert(a.len() != b.len());
    } else {
        lemma_seq_cmp_equal(a.drop_first(), b.drop_first(), f);
        if seq_cmp(a, b, f) is Equal {
            assert(a[0] == b[0]);
            assert forall|i: int| 0 <= i < a.len() implies a[i] == b[i] by {
                if i > 0 {
                    assert(a.drop_first()[i - 1] == b.drop_first()[i - 1]);
                }
            }
            assert(a =~= b);
        } else if a == b {
            assert(f(a[0], b[0]) is Equal);
            assert(a.drop_first() =~= b.drop_first());
        }
    }
}

pub proof fn lemma_seq_cmp_flip<T>(a: Seq<T>, b: Seq<T>, f: spec_fn(T, T) -> Ordering)
    requires
        cmp_sound(f),
    ensures
        seq_cmp(a, b, f) is Less <==> seq_cmp(b, a, f) is Greater,
    decreases a.len(),
{
    if a.len() != 0 && b.len() != 0 {
        lemma_seq_cmp_flip(a.drop_first(), b.drop_first(), f);
    }
}

pub proof fn lemma_seq_cmp_trans<T>(a: Seq<T>, b: Seq<T>, c: Seq<T>, f: spec_fn(T, T) -> Ordering)
    requires
        cmp_sound(f),
        seq_cmp(a, b, f) is Less,
        seq_cmp(b, c, f) is Less,
    ensures
        seq_cmp(a, c, f) is Less,
    decreases a.len(),
{
    if a.len() != 0 && b.len() != 0 && c.len() != 0 {
        if f(a[0], b[0]) is Equal && f(b[0], c[0]) is Equal {
            lemma_seq_cmp_trans(a.drop_first(), b.drop_first(), c.drop_first(), f);
        }
    }
}

/// A sound element comparison yields a sound lexicographic comparison: `g`
/// here is any function that agrees with `seq_cmp` under `f`.
pub proof fn lemma_seq_cmp_sound<T>(
    f: spec_fn(T, T) -> Ordering,
    g: spec_fn(Seq<T>, Seq<T>) -> Ordering,
)
    requires
        cmp_sound(f),
        forall|a: Seq<T>, b: Seq<T>| #[trigger] g(a, b) == seq_cmp(a, b, f),
    ensures
        cmp_sound(g),
{
    assert forall|x: Seq<T>, y: Seq<T>| #[trigger] g(x, y) is Equal <==> x == y by {
        lemma_seq_cmp_equal(x, y, f);
    }
    assert forall|x: Seq<T>, y: Seq<T>| #[trigger] g(x, y) is Less <==> #[trigger] g(
        y,
        x,
    ) is Greater by {
        lemma_seq_cmp_flip(x, y, f);
        lemma_seq_cmp_flip(y, x, f);
    }
    assert forall|x: Seq<T>, y: Seq<T>, z: Seq<T>|
        #[trigger] g(x, y) is Less && #[trigger] g(y, z) is Less implies g(x, z) is Less by {
        lemma_seq_cmp_trans(x, y, z, f);
    }
}

/// Lexicographic comparison of two character sequences by code point.
pub open spec fn chars_cmp(a: Seq<char>, b: Seq<char>) -> Ordering {
    seq_cmp(a, b, char_cmp_fn())
}

/// `chars_cmp` as a function value, shared by every use site.
pub open spec fn chars_cmp_fn() -> spec_fn(Seq<char>, Seq<char>) -> Ordering {
    |a: Seq<char>, b: Seq<char>| chars_cmp(a, b)
}

pub proof fn lemma_chars_cmp_sound()
    ensures
        cmp_sound(chars_cmp_fn()),
{
    lemma_char_cmp_sound();
    lemma_seq_cmp_sound(char_cmp_fn(), chars_cmp_fn());
}

/// Compare two strings lexicographically by character code point.
pub fn str_cmp(a: &str, b: &str) -> (r: Ordering)
    ensures
        r == chars_cmp(a@, b@),
{
    let alen = a.unicode_len();
    let blen = b.unicode_len();
    let mut i: usize = 0;
    proof {
        assert(a@.skip(0) =~= a@);
        assert(b@.skip(0) =~= b@);
    }
    loop
        invariant
            0 <= i <= alen,
            i <= blen,
            alen == a@.len(),
            blen == b@.len(),
            chars_cmp(a@, b@) == chars_cmp(a@.skip(i as int), b@.skip(i as int)),
        ensures
            i <= alen,
            i <= blen,
            i >= alen || i >= blen,
            alen == a@.len(),
            blen == b@.len(),
            chars_cmp(a@, b@) == chars_cmp(a@.skip(i as int), b@.skip(i as int)),
        decreases alen - i,
    {
        if i >= alen || i >= blen {
            break;
        }
        let ca = a.get_char(i);
        let cb = b.get_char(i);
        proof {
            assert(a@.skip(i as int)[0] == ca);
            assert(b@.skip(i as int)[0] == cb);
        }
        if (ca as u32) < (cb as u32) {
            return Ordering::Less;
        }
        if (ca as u32) > (cb as u32) {
            return Ordering::Greater;
        }
        proof {
            assert(a@.skip(i as int).drop_first() =~= a@.skip(i + 1));
            assert(b@.skip(i as int).drop_first() =~= b@.skip(i + 1));
        }
        i = i + 1;
    }
    if i < blen {
        proof {
            assert(a@.skip(i as int).len() == 0);
            assert(b@.skip(i as int).len() > 0);
        }
        Ordering::Less
    } else if i < alen {
        proof {
            assert(b@.skip(i as int).len() == 0);
            assert(a@.skip(i as int).len() > 0);
        }
        Ordering::Greater
    } else {
        proof {
            assert(a@.skip(i as int).len() == 0);
            assert(b@.skip(i as int).len() == 0);
        }
        Ordering::Equal
    }
}

/// Whether two strings hold the same characters.
pub fn str_eq(a: &str, b: &str) -> (r: bool)
    ensures
        r == (a@ == b@),
{
    let c = str_cmp(a, b);
    proof {
        lemma_chars_cmp_sound();
        assert(chars_cmp_fn()(a@, b@) == chars_cmp(a@, b@));
    }
    match c {
        Ordering::Equal => true,
        _ => false,
    }
}

} // verus!
