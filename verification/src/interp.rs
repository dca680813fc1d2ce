use vstd::prelude::*;
use vstd::string::StrSliceExecFns;
use vstd::string::StringSliceAdditionalSpecFns;
use vstd::utf8::encode_utf8;

verus! {

/// Why an interpolation could not be applied.
#[derive(Eq, PartialEq, Debug, Clone, Copy, Structural)]
pub enum InterpError {
    ValueMismatch,
    IndexOutOfBounds,
    Multiple,
    NotRunning,
}

/// How much of a value an interpolation changes.
#[derive(Copy, Clone, Debug, Eq, PartialEq, Structural)]
pub enum InterpCoverage {
    Noop,
    Partial,
    Full,
}

/// The coverage of two interpolations together: full only when both are,
/// nothing only when neither changes anything.
pub open spec fn combined_coverage(a: InterpCoverage, b: InterpCoverage) -> InterpCoverage {
    match (a, b) {
        (InterpCoverage::Full, InterpCoverage::Full) => InterpCoverage::Full,
        (InterpCoverage::Noop, InterpCoverage::Noop) => InterpCoverage::Noop,
        _ => InterpCoverage::Partial,
    }
}

impl core::ops::Add for InterpCoverage {
    type Output = Self;

    fn add(self, other: Self) -> (r: Self) {
        match (self, other) {
            (InterpCoverage::Full, InterpCoverage::Full) => InterpCoverage::Full,
            (InterpCoverage::Noop, InterpCoverage::Noop) => InterpCoverage::Noop,
            _ => InterpCoverage::Partial,
        }
    }
}

impl vstd::std_specs::ops::AddSpecImpl for InterpCoverage {
    open spec fn obeys_add_spec() -> bool {
        true
    }

    open spec fn add_req(self, other: Self) -> bool {
        true
    }

    open spec fn add_spec(self, other: Self) -> Self {
        combined_coverage(self, other)
    }
}

/// Combining coverages does not depend on the order or the grouping, and a
/// coverage combined with itself is unchanged.
pub proof fn law_coverage_combines(a: InterpCoverage, b: InterpCoverage, c: InterpCoverage)
    ensures
        combined_coverage(a, b) == combined_coverage(b, a),
        combined_coverage(combined_coverage(a, b), c) == combined_coverage(a, combined_coverage(b, c)),
        combined_coverage(a, a) == a,
{
}

/// Values that can be derived as they enter and as they leave a display.
pub trait EnterExit: Sized {
    fn enter(&self) -> Self;

    fn exit(&self) -> Self;
}

/// The common prefix of `a` and `b`, character by character.
pub open spec fn common_prefix_len(a: Seq<char>, b: Seq<char>) -> nat
    decreases a.len(),
{
    if a.len() == 0 || b.len() == 0 || a[0] != b[0] {
        0
    } else {
        1 + common_prefix_len(a.drop_first(), b.drop_first())
    }
}

/// The UTF-8 encoding of two character sequences one after the other is the
/// two encodings one after the other.
proof fn lemma_encode_concat(x: Seq<char>, y: Seq<char>)
    ensures
        encode_utf8(x + y) == encode_utf8(x) + encode_utf8(y),
    decreases x.len(),
{
    if x.len() > 0 {
        lemma_encode_concat(x.drop_first(), y);
        assert((x + y).drop_first() =~= x.drop_first() + y);
        assert(encode_utf8(x + y) =~= encode_utf8(x) + encode_utf8(y));
    } else {
        assert(x + y =~= y);
        assert(encode_utf8(x) =~= Seq::<u8>::empty());
        assert(encode_utf8(x) + encode_utf8(y) =~= encode_utf8(y));
    }
}

/// Characters before `k` agree in `a` and `b` exactly when `k` is within
/// the common prefix.
proof fn lemma_common_prefix(a: Seq<char>, b: Seq<char>)
    ensures
        common_prefix_len(a, b) <= a.len(),
        common_prefix_len(a, b) <= b.len(),
        forall|i: int| 0 <= i < common_prefix_len(a, b) ==> a[i] == b[i],
        common_prefix_len(a, b) < a.len() && common_prefix_len(a, b) < b.len() ==> a[common_prefix_len(a, b) as int]
            != b[common_prefix_len(a, b) as int],
    decreases a.len(),
{
    if !(a.len() == 0 || b.len() == 0 || a[0] != b[0]) {
        lemma_common_prefix(a.drop_first(), b.drop_first());
        assert forall|i: int| 0 <= i < common_prefix_len(a, b) implies a[i] == b[i] by {
            if i > 0 {
                assert(a[i] == a.drop_first()[i - 1]);
                assert(b[i] == b.drop_first()[i - 1]);
            }
        }
    }
}

/// Turns one string into another by first taking characters off the end of
/// the first down to the prefix they share, then adding those of the second.
#[derive(Debug)]
pub struct StringInterp {
    prefix: String,
    remove: String,
    add: String,
    steps: usize,
}

impl StringInterp {
    /// The steps count the bytes of both parts that change.
    #[verifier::type_invariant]
    spec fn steps_count_bytes(self) -> bool {
        self.steps as int == encode_utf8(self.remove@).len() + encode_utf8(self.add@).len()
    }

    /// The characters both strings begin with.
    pub closed spec fn prefix_spec(self) -> Seq<char> {
        self.prefix@
    }

    /// The characters of the first string after the prefix.
    pub closed spec fn remove_spec(self) -> Seq<char> {
        self.remove@
    }

    /// The characters of the second string after the prefix.
    pub closed spec fn add_spec(self) -> Seq<char> {
        self.add@
    }

    /// The number of steps: the bytes taken off and the bytes added.
    pub closed spec fn steps_spec(self) -> nat {
        self.steps as nat
    }

    /// The interpolation from `a` to `b`.
    pub fn new(a: &str, b: &str) -> (r: StringInterp)
        requires
            a.spec_bytes().len() + b.spec_bytes().len() <= usize::MAX,
        ensures
            r.prefix_spec() == a@.take(common_prefix_len(a@, b@) as int),
            r.remove_spec() == a@.skip(common_prefix_len(a@, b@) as int),
            r.add_spec() == b@.skip(common_prefix_len(a@, b@) as int),
            r.steps_spec() == encode_utf8(r.remove_spec()).len() + encode_utf8(r.add_spec()).len(),
    {
        proof {
            lemma_common_prefix(a@, b@);
        }
        let a_len = a.unicode_len();
        let b_len = b.unicode_len();
        let mut p: usize = 0;
        while p < a_len && p < b_len && a.get_char(p) == b.get_char(p)
            invariant
                a_len == a@.len(),
                b_len == b@.len(),
                p <= common_prefix_len(a@, b@),
                common_prefix_len(a@, b@) <= a@.len(),
                common_prefix_len(a@, b@) <= b@.len(),
                forall|i: int| 0 <= i < common_prefix_len(a@, b@) ==> a@[i] == b@[i],
                common_prefix_len(a@, b@) < a@.len() && common_prefix_len(a@, b@) < b@.len() ==> a@[common_prefix_len(
                    a@,
                    b@,
                ) as int] != b@[common_prefix_len(a@, b@) as int],
            decreases a_len - p,
        {
            p = p + 1;
        }
        let prefix = a.substring_char(0, p).to_owned();
        let remove = a.substring_char(p, a_len).to_owned();
        let add = b.substring_char(p, b_len).to_owned();
        proof {
            assert(a@ =~= a@.take(p as int) + a@.skip(p as int));
            assert(b@ =~= b@.take(p as int) + b@.skip(p as int));
            lemma_encode_concat(a@.take(p as int), a@.skip(p as int));
            lemma_encode_concat(b@.take(p as int), b@.skip(p as int));
            assert(remove@ == a@.skip(p as int));
            assert(add@ == b@.skip(p as int));
        }
        let steps = remove.as_str().len() + add.as_str().len();
        StringInterp { prefix, remove, add, steps }
    }

    /// The number of steps from the first string to the second.
    pub fn steps(&self) -> (r: usize)
        ensures
            r == self.steps_spec(),
    {
        self.steps
    }

    /// Nothing changes when there is no step to take; otherwise the whole
    /// string is interpolated.
    pub fn coverage(&self) -> (r: InterpCoverage)
        ensures
            r == (if self.steps_spec() == 0 {
                InterpCoverage::Noop
            } else {
                InterpCoverage::Full
            }),
    {
        if self.steps == 0 {
            InterpCoverage::Noop
        } else {
            InterpCoverage::Full
        }
    }

    /// A later interpolation replaces this one.
    pub fn merge(self, other: Self) -> (r: Self)
        ensures
            r == other,
    {
        other
    }

    /// Whether `text_at_step` can cut the strings at `step`: the cut falls
    /// within the bytes of the string it cuts, on a character boundary.
    pub open spec fn cut_fits(self, step: int) -> bool {
        let rel = step - encode_utf8(self.remove_spec()).len();
        &&& encode_utf8(self.remove_spec()).len() <= isize::MAX
        &&& isize::MIN <= rel <= isize::MAX
        &&& rel > 0 ==> rel <= encode_utf8(self.add_spec()).len()
            && vstd::utf8::is_char_boundary(encode_utf8(self.add_spec()), rel)
        &&& rel < 0 ==> -rel <= encode_utf8(self.remove_spec()).len()
            && vstd::utf8::is_char_boundary(encode_utf8(self.remove_spec()), -rel)
    }

    /// The string shown after `step` of the steps: counting from the first
    /// string, the bytes taken off its end come first, then those added of the
    /// second.
    pub open spec fn text_spec(self, step: int) -> Seq<char> {
        let rel = step - encode_utf8(self.remove_spec()).len();
        if rel > 0 {
            self.prefix_spec() + vstd::utf8::decode_utf8(encode_utf8(self.add_spec()).subrange(0, rel))
        } else if rel < 0 {
            self.prefix_spec() + vstd::utf8::decode_utf8(encode_utf8(self.remove_spec()).subrange(0, -rel))
        } else {
            self.prefix_spec()
        }
    }

    /// Whether `text_at_step` can cut the strings at `step`.
    pub fn can_cut_at(&self, step: isize) -> (r: bool)
        ensures
            r == self.cut_fits(step as int),
    {
        proof {
            use_type_invariant(self);
        }
        let r_len = self.remove.as_str().len();
        if r_len > (isize::MAX as usize) {
            return false;
        }
        let rel: i128 = (step as i128) - (r_len as i128);
        if rel < (isize::MIN as i128) || rel > (isize::MAX as i128) {
            return false;
        }
        if rel > 0 {
            let cut = rel as usize;
            cut <= self.add.as_str().len() && self.add.as_str().is_char_boundary(cut)
        } else if rel < 0 {
            let cut = (-rel) as usize;
            cut <= r_len && self.remove.as_str().is_char_boundary(cut)
        } else {
            true
        }
    }

    /// The string shown after `step` of the steps.
    pub fn text_at_step(&self, step: isize) -> (r: String)
        requires
            self.cut_fits(step as int),
        ensures
            r@ == self.text_spec(step as int),
    {
        let r_len = self.remove.as_str().len() as isize;
        let rel = step - r_len;
        if rel > 0 {
            let (part, _) = self.add.as_str().split_at(rel as usize);
            proof {
                vstd::utf8::encode_utf8_decode_utf8(part@);
            }
            self.prefix.clone().concat(part)
        } else if rel < 0 {
            let (part, _) = self.remove.as_str().split_at((-rel) as usize);
            proof {
                vstd::utf8::encode_utf8_decode_utf8(part@);
            }
            self.prefix.clone().concat(part)
        } else {
            self.prefix.clone()
        }
    }
}

} // verus!
