use crate::text::{trim, trimmed};
use vstd::prelude::*;

verus! {

/// The text of a descriptor up to its first line break.
pub open spec fn first_line(s: Seq<char>) -> Seq<char>
    decreases s.len(),
{
    if s.len() == 0 || s[0] == '\n' {
        Seq::empty()
    } else {
        seq![s[0]] + first_line(s.subrange(1, s.len() as int))
    }
}

/// The identifier a descriptor names: its first line, trimmed.
pub open spec fn descriptor_id(s: Seq<char>) -> Seq<char> {
    trim(first_line(s))
}

/// A descriptor: the identity of a remote package named by a dropped file.
#[derive(Clone, Debug)]
pub struct Epw {
    pub id: String,
}

/// The reasons a descriptor is refused.
#[derive(Clone, Copy, Debug, PartialEq, Eq, Structural)]
pub enum ParseError {
    /// No identifier stands on the first line.
    MissingId,
}

proof fn lemma_first_line(s: Seq<char>, k: int)
    requires
        0 <= k <= s.len(),
        forall|i: int| 0 <= i < k ==> #[trigger] s[i] != '\n',
        k == s.len() || s[k] == '\n',
    ensures
        first_line(s) == s.subrange(0, k),
    decreases k,
{
    if k == 0 {
        assert(s.subrange(0, 0) =~= Seq::<char>::empty());
    } else {
        let t = s.subrange(1, s.len() as int);
        assert forall|i: int| 0 <= i < k - 1 implies #[trigger] t[i] != '\n' by {
            assert(t[i] == s[i + 1]);
        }
        if k - 1 < t.len() {
            assert(t[k - 1] == s[k]);
        }
        lemma_first_line(t, k - 1);
        assert(seq![s[0]] + t.subrange(0, k - 1) =~= s.subrange(0, k));
    }
}

impl Epw {
    /// Reads a descriptor from the text of a dropped file: the identifier is
    /// its first line without surrounding white space, and must not be empty.
    pub fn from_text(text: &str) -> (r: Result<Epw, ParseError>)
        ensures
            descriptor_id(text@).len() == 0 <==> r is Err,
            r matches Ok(e) ==> e.id@ == descriptor_id(text@),
            r matches Err(e) ==> e == ParseError::MissingId,
    {
        let n = text.unicode_len();
        let mut k: usize = 0;
        while k < n && text.get_char(k) != '\n'
            invariant
                n == text@.len(),
                k <= n,
                forall|i: int| 0 <= i < k ==> #[trigger] text@[i] != '\n',
            decreases n - k,
        {
            k = k + 1;
        }
        proof {
            lemma_first_line(text@, k as int);
        }
        let id = trimmed(text.substring_char(0, k));
        if id.as_str().unicode_len() == 0 {
            Err(ParseError::MissingId)
        } else {
            Ok(Epw { id })
        }
    }
}

} // verus!
