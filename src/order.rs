use vstd::prelude::*;
use vstd::string::*;

verus! {

/// `a` and `b` first differ at `i`, where `a` has the smaller character or
/// has ended while `b` goes on.
pub open spec fn lt_at(a: Seq<char>, b: Seq<char>, i: int) -> bool {
    &&& 0 <= i <= a.len()
    &&& i <= b.len()
    &&& forall|j: int| 0 <= j < i ==> a[j] == b[j]
    &&& ((i == a.len() && i < b.len()) || (i < a.len() && i < b.len() && a[i] < b[i]))
}

/// `a` comes before `b`: character by character, by code point, a proper
/// prefix first.
pub open spec fn key_lt(a: Seq<char>, b: Seq<char>) -> bool {
    exists|i: int| lt_at(a, b, i)
}

/// No key comes before itself.
pub proof fn lemma_key_lt_irreflexive(a: Seq<char>)
    ensures
        !key_lt(a, a),
{
}

/// The order is transitive.
pub proof fn lemma_key_lt_transitive(a: Seq<char>, b: Seq<char>, c: Seq<char>)
    requires
        key_lt(a, b),
        key_lt(b, c),
    ensures
        key_lt(a, c),
{
    let i = choose|i: int| lt_at(a, b, i);
    let j = choose|j: int| lt_at(b, c, j);
    if i < j {
        assert(lt_at(a, c, i));
    } else if j < i {
        assert(a[j] == b[j]);
        assert(lt_at(a, c, j));
    } else {
        assert(lt_at(a, c, i));
    }
}

proof fn lemma_key_lt_total_from(a: Seq<char>, b: Seq<char>, i: int)
    requires
        0 <= i <= a.len(),
        i <= b.len(),
        forall|j: int| 0 <= j < i ==> a[j] == b[j],
    ensures
        a == b || key_lt(a, b) || key_lt(b, a),
    decreases a.len() - i,
{
    if i == a.len() && i == b.len() {
        assert(a =~= b);
    } else if i == a.len() {
        assert(lt_at(a, b, i));
    } else if i == b.len() {
        assert(lt_at(b, a, i));
    } else if a[i] == b[i] {
        lemma_key_lt_total_from(a, b, i + 1);
    } else if a[i] < b[i] {
        assert(lt_at(a, b, i));
    } else {
        assert(lt_at(b, a, i));
    }
}

/// Any two distinct keys are ordered one way or the other.
pub proof fn lemma_key_lt_total(a: Seq<char>, b: Seq<char>)
    ensures
        a == b || key_lt(a, b) || key_lt(b, a),
{
    lemma_key_lt_total_from(a, b, 0);
}

/// Whether `a` comes before `b`.
pub fn key_less(a: &str, b: &str) -> (r: bool)
    ensures
        r == key_lt(a@, b@),
{
    let na = a.unicode_len();
    let nb = b.unicode_len();
    let mut i: usize = 0;
    while i < na && i < nb
        invariant
            na == a@.len(),
            nb == b@.len(),
            i <= na,
            i <= nb,
            forall|j: int| 0 <= j < i ==> a@[j] == b@[j],
        decreases na - i,
    {
        let ca = a.get_char(i);
        let cb = b.get_char(i);
        if ca != cb {
            proof {
                if ca < cb {
                    assert(lt_at(a@, b@, i as int));
                } else {
                    assert forall|k: int| !lt_at(a@, b@, k) by {
                        if lt_at(a@, b@, k) {
                            if k < i {
                            } else if k > i {
                                assert(a@[i as int] == b@[i as int]);
                            }
                        }
                    }
                }
            }
            return ca < cb;
        }
        i = i + 1;
    }
    proof {
        if na < nb {
            assert(lt_at(a@, b@, i as int));
        } else {
            assert forall|k: int| !lt_at(a@, b@, k) by {}
        }
    }
    na < nb
}

} // verus!
