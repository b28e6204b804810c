//! The validated identifier of a variable: non-empty text made of
//! alphanumeric characters and underscores, ordered lexicographically.
use vstd::prelude::*;
use vstd::string::StrSliceExecFns;

verus! {

/// Whether a character counts as alphanumeric for `char::is_alphanumeric`.
pub uninterp spec fn char_is_alnum(c: char) -> bool;

/// Relies on `char::is_alphanumeric` of std: whether a character is
/// alphanumeric depends on the character alone.
pub assume_specification[ char::is_alphanumeric ](c: char) -> (r: bool)
    ensures
        r == char_is_alnum(c),
;

/// A character allowed in a variable name: alphanumeric or underscore.
pub open spec fn valid_name_char(c: char) -> bool {
    char_is_alnum(c) || c == '_'
}

/// What a valid name is: non-empty, all characters allowed.
pub open spec fn valid_name(s: Seq<char>) -> bool {
    s.len() > 0 && forall|i: int| 0 <= i < s.len() ==> valid_name_char(#[trigger] s[i])
}

/// Lexicographic order on character sequences, by Unicode scalar value,
/// compared from position `i` on.
pub open spec fn lex_lt_from(a: Seq<char>, b: Seq<char>, i: int) -> bool
    decreases b.len() - i,
{
    if i >= b.len() {
        false
    } else if i >= a.len() {
        true
    } else if a[i] != b[i] {
        (a[i] as u32) < (b[i] as u32)
    } else {
        lex_lt_from(a, b, i + 1)
    }
}

/// Lexicographic order on character sequences, by Unicode scalar value.
pub open spec fn lex_lt(a: Seq<char>, b: Seq<char>) -> bool {
    lex_lt_from(a, b, 0)
}

/// The lexicographic order is asymmetric: two sequences cannot each
/// precede the other, and a sequence never precedes itself.
pub proof fn lemma_lex_asym_from(a: Seq<char>, b: Seq<char>, i: int)
    requires
        lex_lt_from(a, b, i),
    ensures
        !lex_lt_from(b, a, i),
    decreases b.len() - i,
{
    if i < b.len() && i < a.len() && a[i] == b[i] {
        lemma_lex_asym_from(a, b, i + 1);
    }
}

/// Two sequences that do not precede each other are equal: the
/// lexicographic order is total on distinct sequences.
proof fn lemma_lex_connected_from(a: Seq<char>, b: Seq<char>, i: int)
    requires
        0 <= i <= a.len(),
        i <= b.len(),
        !lex_lt_from(a, b, i),
        !lex_lt_from(b, a, i),
    ensures
        a.len() == b.len(),
        forall|k: int| i <= k < a.len() ==> a[k] == b[k],
    decreases a.len() - i,
{
    if i >= b.len() {
        assert(i == b.len());
        if i < a.len() {
            assert(lex_lt_from(b, a, i));
        }
    } else if i >= a.len() {
        assert(lex_lt_from(a, b, i));
    } else {
        if a[i] != b[i] {
            if (a[i] as u32) < (b[i] as u32) {
                assert(lex_lt_from(a, b, i));
            } else if (b[i] as u32) < (a[i] as u32) {
                assert(lex_lt_from(b, a, i));
            } else {
                vstd::utf8::char_u32_cast(a[i], a[i] as u32);
                vstd::utf8::char_u32_cast(b[i], b[i] as u32);
            }
            assert(false);
        }
        lemma_lex_connected_from(a, b, i + 1);
    }
}

/// The lexicographic order is transitive.
proof fn lemma_lex_trans_from(a: Seq<char>, b: Seq<char>, c: Seq<char>, i: int)
    requires
        lex_lt_from(a, b, i),
        lex_lt_from(b, c, i),
    ensures
        lex_lt_from(a, c, i),
    decreases b.len() - i,
{
    if i < a.len() && i < b.len() && i < c.len() && a[i] == b[i] && b[i] == c[i] {
        lemma_lex_trans_from(a, b, c, i + 1);
    } else {
        vstd::utf8::char_u32_cast(b[i], b[i] as u32);
        if i < a.len() {
            vstd::utf8::char_u32_cast(a[i], a[i] as u32);
        }
        if i < c.len() {
            vstd::utf8::char_u32_cast(c[i], c[i] as u32);
        }
    }
}

/// The lexicographic order is transitive.
pub proof fn lemma_lex_trans(a: Seq<char>, b: Seq<char>, c: Seq<char>)
    requires
        lex_lt(a, b),
        lex_lt(b, c),
    ensures
        lex_lt(a, c),
{
    lemma_lex_trans_from(a, b, c, 0);
}

/// Of two distinct sequences, one lexicographically precedes the other.
pub proof fn lemma_lex_connected(a: Seq<char>, b: Seq<char>)
    requires
        !lex_lt(a, b),
        !lex_lt(b, a),
    ensures
        a == b,
{
    lemma_lex_connected_from(a, b, 0);
    assert(a =~= b);
}

/// Why a text is rejected as the name of a variable.
#[derive(Debug, PartialEq, Eq, Structural)]
pub enum NameError {
    /// The text has no characters.
    Empty,
    /// Some character is neither alphanumeric nor an underscore.
    InvalidCharacters,
}

impl NameError {
    /// The stable, human-readable description of the failure.
    pub fn message(&self) -> (r: String)
        ensures
            self == NameError::Empty ==> r@ == "The name cannot be empty"@,
            self == NameError::InvalidCharacters ==> r@
                == "The name must have only the following allowed characters: alphanumeric, underscore"@,
    {
        match self {
            NameError::Empty => "The name cannot be empty".to_owned(),
            NameError::InvalidCharacters => {
                "The name must have only the following allowed characters: alphanumeric, underscore".to_owned()
            },
        }
    }
}

/// The validated, immutable name of a variable.
#[derive(Debug)]
pub struct Name {
    text: String,
}

impl View for Name {
    type V = Seq<char>;

    closed spec fn view(&self) -> Seq<char> {
        self.text@
    }
}

impl Name {
    /// The name is non-empty and all its characters are allowed.
    #[verifier::type_invariant]
    pub open spec fn wf(self) -> bool {
        valid_name(self@)
    }

    /// Validates a text as a name: it is accepted exactly when it is
    /// non-empty and every character is alphanumeric or an underscore, and
    /// the stored text reads back unchanged.
    pub fn try_from(name: &str) -> (r: Result<Name, NameError>)
        ensures
            r is Ok <==> valid_name(name@),
            r matches Ok(n) ==> n@ == name@,
            r matches Err(e) ==> (e == NameError::Empty <==> name@.len() == 0),
            r matches Err(e) ==> (e == NameError::InvalidCharacters <==> name@.len() > 0
                && !valid_name(name@)),
    {
        let n = name.unicode_len();
        if n == 0 {
            return Err(NameError::Empty);
        }
        for i in 0..n
            invariant
                n == name@.len(),
                forall|j: int| 0 <= j < i ==> valid_name_char(#[trigger] name@[j]),
        {
            let c = name.get_char(i);
            if !(c.is_alphanumeric() || c == '_') {
                return Err(NameError::InvalidCharacters);
            }
        }
        Ok(Name { text: name.to_owned() })
    }

    /// Validates an owned text as a name, as [`Name::try_from`] does.
    pub fn try_from_string(name: String) -> (r: Result<Name, NameError>)
        ensures
            r is Ok <==> valid_name(name@),
            r matches Ok(n) ==> n@ == name@,
            r matches Err(e) ==> (e == NameError::Empty <==> name@.len() == 0),
            r matches Err(e) ==> (e == NameError::InvalidCharacters <==> name@.len() > 0
                && !valid_name(name@)),
    {
        Name::try_from(name.as_str())
    }

    /// The text of the name.
    pub fn as_str(&self) -> (r: &str)
        ensures
            r@ == self@,
            valid_name(self@),
    {
        proof {
            use_type_invariant(self);
        }
        self.text.as_str()
    }

    /// Three-way lexicographic comparison of two names.
    pub(crate) fn cmp_text(&self, other: &Name) -> (r: core::cmp::Ordering)
        ensures
            r == core::cmp::Ordering::Equal <==> self@ == other@,
            r == core::cmp::Ordering::Less <==> lex_lt(self@, other@),
            r == core::cmp::Ordering::Greater <==> lex_lt(other@, self@),
    {
        let a = self.text.as_str();
        let b = other.text.as_str();
        let na = a.unicode_len();
        let nb = b.unicode_len();
        let n = if na < nb {
            na
        } else {
            nb
        };
        let mut i: usize = 0;
        while i < n
            invariant
                i <= n,
                n <= na && n <= nb && (n == na || n == nb),
                na == a@.len(),
                nb == b@.len(),
                a@ == self@,
                b@ == other@,
                forall|j: int| 0 <= j < i ==> a@[j] == b@[j],
                lex_lt(a@, b@) == lex_lt_from(a@, b@, i as int),
                lex_lt(b@, a@) == lex_lt_from(b@, a@, i as int),
            decreases n - i,
        {
            let ca = a.get_char(i);
            let cb = b.get_char(i);
            if (ca as u32) < (cb as u32) {
                assert(ca != cb);
                assert(lex_lt_from(a@, b@, i as int));
                assert(!lex_lt_from(b@, a@, i as int));
                assert(a@ != b@);
                return core::cmp::Ordering::Less;
            } else if (cb as u32) < (ca as u32) {
                assert(ca != cb);
                assert(lex_lt_from(b@, a@, i as int));
                assert(!lex_lt_from(a@, b@, i as int));
                assert(a@ != b@);
                return core::cmp::Ordering::Greater;
            }
            assert(ca == cb);
            assert(lex_lt_from(a@, b@, i as int) == lex_lt_from(a@, b@, i + 1));
            assert(lex_lt_from(b@, a@, i as int) == lex_lt_from(b@, a@, i + 1));
            i = i + 1;
        }
        if na == nb {
            assert(a@ =~= b@);
            assert(!lex_lt_from(a@, b@, i as int));
            core::cmp::Ordering::Equal
        } else if na < nb {
            assert(lex_lt_from(a@, b@, i as int));
            assert(!lex_lt_from(b@, a@, i as int));
            assert(a@.len() != b@.len());
            core::cmp::Ordering::Less
        } else {
            assert(lex_lt_from(b@, a@, i as int));
            assert(!lex_lt_from(a@, b@, i as int));
            assert(a@.len() != b@.len());
            core::cmp::Ordering::Greater
        }
    }
}

impl PartialEq for Name {
    fn eq(&self, other: &Name) -> (r: bool) {
        self.text == other.text
    }
}

impl vstd::std_specs::cmp::PartialEqSpecImpl for Name {
    open spec fn obeys_eq_spec() -> bool {
        true
    }

    open spec fn eq_spec(&self, other: &Name) -> bool {
        self@ == other@
    }
}

impl PartialOrd for Name {
    fn partial_cmp(&self, other: &Name) -> (r: Option<core::cmp::Ordering>) {
        Some(self.cmp_text(other))
    }
}

impl vstd::std_specs::cmp::PartialOrdSpecImpl for Name {
    open spec fn obeys_partial_cmp_spec() -> bool {
        true
    }

    open spec fn partial_cmp_spec(&self, other: &Name) -> Option<core::cmp::Ordering> {
        if self@ == other@ {
            Some(core::cmp::Ordering::Equal)
        } else if lex_lt(self@, other@) {
            Some(core::cmp::Ordering::Less)
        } else {
            Some(core::cmp::Ordering::Greater)
        }
    }
}

} // verus!
