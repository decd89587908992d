//! Root-relative paths: the stable identity of an entry within a sync.
//!
//! A path is kept canonicalized: forward-slash separators, no leading or
//! trailing slash, no empty components; the empty byte string stands for the
//! root of the sync itself.  Entry lists are ordered lexicographically over
//! this canonical representation, which is the invariant the reconciliation
//! merge depends on.

use vstd::prelude::*;

verus! {

use vstd::string::StrSliceExecFns;
use vstd::string::StringSliceAdditionalSpecFns;

/// Byte value of `/`, the canonical separator.
pub const SLASH: u8 = 47;
/// Byte value of `\`, the separator normalization replaces.
pub const BACKSLASH: u8 = 92;

/// Strict lexicographic order over byte strings; the canonical order of
/// entry lists.
pub open spec fn lex_lt(a: Seq<u8>, b: Seq<u8>) -> bool
    decreases a.len(),
{
    if b.len() == 0 {
        false
    } else if a.len() == 0 {
        true
    } else if a[0] < b[0] {
        true
    } else if a[0] > b[0] {
        false
    } else {
        lex_lt(a.drop_first(), b.drop_first())
    }
}

/// Of `lex_lt(a, b)`, `a == b` and `lex_lt(b, a)`, exactly one holds.
pub proof fn lemma_lex_trichotomy(a: Seq<u8>, b: Seq<u8>)
    ensures
        lex_lt(a, b) || a == b || lex_lt(b, a),
        lex_lt(a, b) ==> !(a == b) && !lex_lt(b, a),
        a == b ==> !lex_lt(a, b) && !lex_lt(b, a),
    decreases a.len(),
{
    if a.len() == 0 || b.len() == 0 {
        if a.len() == 0 && b.len() == 0 {
            assert(a =~= b);
        }
    } else {
        if a[0] == b[0] {
            lemma_lex_trichotomy(a.drop_first(), b.drop_first());
            if a.drop_first() == b.drop_first() {
                assert(a =~= b) by {
                    assert forall|k: int| 0 <= k < a.len() implies a[k] == b[k] by {
                        if k > 0 {
                            assert(a.drop_first()[k - 1] == b.drop_first()[k - 1]);
                        }
                    }
                }
            }
            if a == b {
                assert(a.drop_first() =~= b.drop_first());
            }
        }
    }
}

/// Lexicographic order is transitive.
pub proof fn lemma_lex_transitive(a: Seq<u8>, b: Seq<u8>, c: Seq<u8>)
    requires
        lex_lt(a, b),
        lex_lt(b, c),
    ensures
        lex_lt(a, c),
    decreases a.len(),
{
    if a.len() == 0 {
        // b is nonempty, hence so is c; lex_lt(a, c) follows directly.
    } else {
        // lex_lt(a, b) with a nonempty forces b nonempty; lex_lt(b, c) forces c nonempty.
        if a[0] == b[0] {
            if b[0] == c[0] {
                lemma_lex_transitive(a.drop_first(), b.drop_first(), c.drop_first());
            }
        }
    }
}

/// Case analysis used to conclude the order of two byte strings from the
/// first position where they differ (or from one ending first).
pub proof fn lemma_lex_from_prefix(a: Seq<u8>, b: Seq<u8>, i: int)
    requires
        0 <= i <= a.len(),
        i <= b.len(),
        a.subrange(0, i) == b.subrange(0, i),
    ensures
        i < a.len() && i < b.len() && a[i] < b[i] ==> lex_lt(a, b),
        i < a.len() && i < b.len() && a[i] > b[i] ==> lex_lt(b, a),
        i == a.len() && i < b.len() ==> lex_lt(a, b),
        i == a.len() && i == b.len() ==> a == b,
    decreases i,
{
    if i == 0 {
        if a.len() == 0 && b.len() == 0 {
            assert(a =~= b);
        }
    } else {
        assert(a.subrange(0, i)[0] == a[0]);
        assert(b.subrange(0, i)[0] == b[0]);
        assert(a[0] == b[0]);
        let at = a.drop_first();
        let bt = b.drop_first();
        assert(at.subrange(0, i - 1) =~= bt.subrange(0, i - 1)) by {
            assert forall|k: int| 0 <= k < i - 1 implies #[trigger] at.subrange(0, i - 1)[k]
                == bt.subrange(0, i - 1)[k] by {
                assert(at.subrange(0, i - 1)[k] == at[k]);
                assert(at[k] == a[k + 1]);
                assert(bt[k] == b[k + 1]);
                assert(a.subrange(0, i)[k + 1] == a[k + 1]);
                assert(b.subrange(0, i)[k + 1] == b[k + 1]);
            }
        }
        lemma_lex_from_prefix(at, bt, i - 1);
        if i == a.len() && i == b.len() && at == bt {
            assert(a =~= b) by {
                assert forall|k: int| 0 <= k < a.len() implies a[k] == b[k] by {
                    if k > 0 {
                        assert(at[k - 1] == bt[k - 1]);
                    }
                }
            }
        }
    }
}

/// `c` lies strictly below `p` in the tree: below the root when `p` is the
/// root, otherwise under the folder `p` itself.
pub open spec fn is_below(c: Seq<u8>, p: Seq<u8>) -> bool {
    if p.len() == 0 {
        c.len() > 0
    } else {
        c.len() > p.len() && c.subrange(0, p.len() as int) == p && c[p.len() as int] == SLASH
    }
}

/// A descendant always sorts after its ancestor, so the canonical order
/// lists parents before children, and the reverse order lists children
/// before parents.
pub proof fn lemma_below_implies_gt(c: Seq<u8>, p: Seq<u8>)
    requires
        is_below(c, p),
    ensures
        lex_lt(p, c),
{
    if p.len() == 0 {
        assert(lex_lt(p, c));
    } else {
        assert(p.subrange(0, p.len() as int) =~= p);
        lemma_lex_from_prefix(p, c, p.len() as int);
    }
}

/// A canonical path: no backslashes, no leading or trailing slash, and no
/// empty components.
pub open spec fn is_normalized(s: Seq<u8>) -> bool {
    &&& forall|i: int| 0 <= i < s.len() ==> s[i] != BACKSLASH
    &&& s.len() > 0 ==> s[0] != SLASH && s[s.len() - 1] != SLASH
    &&& forall|i: int| 0 < i < s.len() ==> !(s[i - 1] == SLASH && #[trigger] s[i] == SLASH)
}

/// Comparison outcome of two paths.
#[derive(Clone, Copy, Debug, PartialEq, Eq, Structural)]
pub enum PathOrder {
    Less,
    Equal,
    Greater,
}

/// A path relative to the root of the sync, canonicalized to forward-slash
/// separators with no trailing slash; the empty path is the root itself.
#[derive(Debug, PartialEq, Eq)]
pub struct RootRelativePath {
    bytes: Vec<u8>,
}

impl View for RootRelativePath {
    type V = Seq<u8>;

    closed spec fn view(&self) -> Seq<u8> {
        self.bytes@
    }
}

impl RootRelativePath {
    #[verifier::type_invariant]
    spec fn wf(self) -> bool {
        is_normalized(self.bytes@)
    }

    /// The path of the sync root itself.
    pub fn root() -> (r: Self)
        ensures
            r@ == Seq::<u8>::empty(),
    {
        let r = RootRelativePath { bytes: Vec::new() };
        proof {
            assert(r.bytes@ =~= Seq::<u8>::empty());
        }
        r
    }

    /// Wraps an already canonical textual path; rejects one that is not
    /// canonical.
    pub fn new(text: &str) -> (r: Result<Self, String>)
        ensures
            r matches Ok(p) ==> p@ == text.spec_bytes() && is_normalized(text.spec_bytes()),
            r is Err <==> !is_normalized(text.spec_bytes()),
    {
        let bytes = text.as_bytes_vec();
        if Self::check_normalized(&bytes) {
            Ok(RootRelativePath { bytes })
        } else {
            Err("Path is not in canonical root-relative form".to_owned())
        }
    }

    /// Canonicalizes a textual path: backslashes become forward slashes and
    /// trailing slashes are dropped, as cross-platform matching requires.
    /// A path with a leading slash or an empty component is rejected.
    pub fn normalize(text: &str) -> (r: Result<Self, String>)
        ensures
            r matches Ok(p) ==> {
                &&& is_normalized(p@)
                &&& p@ == strip_trailing_slashes(replace_backslashes(text.spec_bytes()))
            },
            r is Err <==> !is_normalized(
                strip_trailing_slashes(replace_backslashes(text.spec_bytes())),
            ),
    {
        let raw = text.as_bytes_vec();
        let mut bytes: Vec<u8> = Vec::new();
        let mut i: usize = 0;
        while i < raw.len()
            invariant
                0 <= i <= raw.len(),
                bytes@ =~= replace_backslashes(raw@.subrange(0, i as int)),
            decreases raw.len() - i,
        {
            proof {
                assert(raw@.subrange(0, i + 1).drop_last() =~= raw@.subrange(0, i as int));
                assert(raw@.subrange(0, i + 1).last() == raw@[i as int]);
            }
            let b = raw[i];
            if b == BACKSLASH {
                bytes.push(SLASH);
            } else {
                bytes.push(b);
            }
            i += 1;
        }
        proof {
            assert(raw@.subrange(0, raw@.len() as int) =~= raw@);
        }
        while bytes.len() > 0 && bytes[bytes.len() - 1] == SLASH
            invariant
                strip_trailing_slashes(bytes@) == strip_trailing_slashes(
                    replace_backslashes(raw@),
                ),
            decreases bytes.len(),
        {
            proof {
                assert(bytes@.drop_last() =~= bytes@.subrange(0, bytes@.len() - 1));
            }
            bytes.pop();
        }
        proof {
            if !(bytes@.len() > 0 && bytes@[bytes@.len() - 1] == SLASH) {
                assert(strip_trailing_slashes(bytes@) == bytes@);
            }
        }
        if Self::check_normalized(&bytes) {
            Ok(RootRelativePath { bytes })
        } else {
            Err("Path is not in canonical root-relative form".to_owned())
        }
    }

    fn check_normalized(bytes: &Vec<u8>) -> (r: bool)
        ensures
            r == is_normalized(bytes@),
    {
        let n = bytes.len();
        if n > 0 && (bytes[0] == SLASH || bytes[n - 1] == SLASH) {
            return false;
        }
        let mut i: usize = 0;
        while i < n
            invariant
                0 <= i <= n,
                n == bytes@.len(),
                n > 0 ==> bytes@[0] != SLASH && bytes@[n - 1] != SLASH,
                forall|k: int| 0 <= k < i ==> bytes@[k] != BACKSLASH,
                forall|k: int|
                    0 < k < i ==> !(bytes@[k - 1] == SLASH && #[trigger] bytes@[k] == SLASH),
            decreases n - i,
        {
            if bytes[i] == BACKSLASH {
                return false;
            }
            if i > 0 && bytes[i - 1] == SLASH && bytes[i] == SLASH {
                return false;
            }
            i += 1;
        }
        true
    }

    /// The canonical bytes of the path.
    pub fn as_bytes(&self) -> (r: &Vec<u8>)
        ensures
            r@ == self@,
    {
        &self.bytes
    }

    /// Whether this is the root of the sync.
    pub fn is_root(&self) -> (r: bool)
        ensures
            r == (self@.len() == 0),
    {
        self.bytes.len() == 0
    }

    /// A copy of this path.
    pub fn duplicate(&self) -> (r: Self)
        ensures
            r@ == self@,
    {
        proof {
            use_type_invariant(self);
        }
        let bytes = clone_bytes(&self.bytes);
        RootRelativePath { bytes }
    }

    /// Canonical-order comparison with another path.
    pub fn compare(&self, other: &Self) -> (r: PathOrder)
        ensures
            (r is Less) == lex_lt(self@, other@),
            (r is Equal) == (self@ == other@),
            (r is Greater) == lex_lt(other@, self@),
    {
        bytes_compare(&self.bytes, &other.bytes)
    }
}

/// A deep copy of a byte vector.
pub fn clone_bytes(v: &Vec<u8>) -> (r: Vec<u8>)
    ensures
        r@ == v@,
{
    let r = v.clone();
    proof {
        assert(r@ =~= v@);
    }
    r
}

/// Canonical-order comparison of two byte strings.
pub fn bytes_compare(a: &Vec<u8>, b: &Vec<u8>) -> (r: PathOrder)
    ensures
        (r is Less) == lex_lt(a@, b@),
        (r is Equal) == (a@ == b@),
        (r is Greater) == lex_lt(b@, a@),
{
    let mut i: usize = 0;
    loop
        invariant
            0 <= i <= a@.len(),
            i <= b@.len(),
            a@.subrange(0, i as int) =~= b@.subrange(0, i as int),
        decreases a@.len() - i,
    {
        proof {
            lemma_lex_from_prefix(a@, b@, i as int);
            lemma_lex_from_prefix(b@, a@, i as int);
            lemma_lex_trichotomy(a@, b@);
        }
        if i == a.len() {
            if i == b.len() {
                return PathOrder::Equal;
            }
            return PathOrder::Less;
        }
        if i == b.len() {
            return PathOrder::Greater;
        }
        if a[i] < b[i] {
            return PathOrder::Less;
        }
        if a[i] > b[i] {
            return PathOrder::Greater;
        }
        proof {
            assert(a@.subrange(0, i + 1) =~= b@.subrange(0, i + 1)) by {
                assert forall|k: int| 0 <= k < i + 1 implies #[trigger] a@.subrange(0, i + 1)[k]
                    == b@.subrange(0, i + 1)[k] by {
                    if k < i {
                        assert(a@.subrange(0, i as int)[k] == b@.subrange(0, i as int)[k]);
                    }
                }
            }
        }
        i += 1;
    }
}

/// Whether two byte strings are equal.
pub fn bytes_equal(a: &Vec<u8>, b: &Vec<u8>) -> (r: bool)
    ensures
        r == (a@ == b@),
{
    matches!(bytes_compare(a, b), PathOrder::Equal)
}

/// Backslash-to-slash replacement, the spec of separator normalization.
pub open spec fn replace_backslashes(s: Seq<u8>) -> Seq<u8> {
    s.map_values(|b: u8| if b == BACKSLASH { SLASH } else { b })
}

/// Removal of every trailing slash, the spec of trailing-separator
/// normalization.
pub open spec fn strip_trailing_slashes(s: Seq<u8>) -> Seq<u8>
    decreases s.len(),
{
    if s.len() > 0 && s[s.len() - 1] == SLASH {
        strip_trailing_slashes(s.drop_last())
    } else {
        s
    }
}

} // verus!
