//! Password hashes in the Modular Crypt Format: `$` followed by an
//! identifier of the algorithm, and then by fields, each after a `$` of its
//! own, as in `$6$rounds=100000$exn6tVc2j/MZD8uG`.

use vstd::prelude::*;

verus! {

/// The delimiter of fields: `$`.
pub const DELIMITER: char = '$';

/// The error of a text that is no hash in the Modular Crypt Format, no
/// identifier or no field.
#[derive(Clone, Copy, Debug, PartialEq, Eq, Structural)]
pub struct Error {}

/// May `c` stand at either end of an identifier? Lower case letters and
/// digits may.
pub open spec fn is_id_edge_char(c: char) -> bool {
    ('a' <= c && c <= 'z') || ('0' <= c && c <= '9')
}

/// May `c` stand in an identifier? Lower case letters, digits and `-` may.
pub open spec fn is_id_char(c: char) -> bool {
    is_id_edge_char(c) || c == '-'
}

/// Is `id` an identifier of an algorithm? It is not empty, made of lower
/// case letters, digits and `-`, and neither begins nor ends with `-`.
pub open spec fn is_valid_id(id: Seq<char>) -> bool {
    &&& id.len() > 0
    &&& is_id_edge_char(id.first())
    &&& is_id_edge_char(id.last())
    &&& forall|i: int| 0 <= i < id.len() ==> is_id_char(#[trigger] id[i])
}

/// May `c` stand in a field? Letters, digits and `.`, `/`, `+`, `=`, `,`,
/// `-` may.
pub open spec fn is_field_char(c: char) -> bool {
    ||| ('A' <= c && c <= 'Z')
    ||| ('a' <= c && c <= 'z')
    ||| ('0' <= c && c <= '9')
    ||| c == '.'
    ||| c == '/'
    ||| c == '+'
    ||| c == '='
    ||| c == ','
    ||| c == '-'
}

/// Is `field` a field? It is not empty, and made of the characters that
/// may stand in one.
pub open spec fn is_valid_field(field: Seq<char>) -> bool {
    &&& field.len() > 0
    &&& forall|i: int| 0 <= i < field.len() ==> is_field_char(#[trigger] field[i])
}

/// Number of characters of `s` before the first delimiter, or in all where
/// there is none.
pub open spec fn spec_first_len(s: Seq<char>) -> nat
    decreases s.len(),
{
    if s.len() == 0 || s[0] == DELIMITER {
        0
    } else {
        1 + spec_first_len(s.skip(1))
    }
}

/// The parts of `s` between its delimiters. An empty text has no part, and
/// a delimiter at the end has no part behind it.
pub open spec fn spec_split(s: Seq<char>) -> Seq<Seq<char>>
    decreases s.len(),
{
    if s.len() == 0 {
        Seq::empty()
    } else {
        let n = spec_first_len(s);
        if n >= s.len() {
            seq![s]
        } else {
            seq![s.take(n as int)] + spec_split(s.skip(n as int + 1))
        }
    }
}

/// Is `s` a hash in the Modular Crypt Format? It begins with a delimiter
/// and does not end with one; what follows the first delimiter is an
/// identifier, and then fields, each after a delimiter of its own.
pub open spec fn is_valid_mcf(s: Seq<char>) -> bool {
    &&& s.len() > 0
    &&& s[0] == DELIMITER
    &&& s.last() != DELIMITER
    &&& is_valid_id(spec_split(s.skip(1))[0])
    &&& forall|i: int|
        1 <= i < spec_split(s.skip(1)).len() ==> is_valid_field(#[trigger] spec_split(s.skip(1))[i])
}

/// The first delimiter is where no character before it is one.
pub proof fn lemma_first_len(s: Seq<char>, n: nat)
    requires
        n <= s.len(),
        forall|i: int| 0 <= i < n ==> s[i] != DELIMITER,
        n == s.len() || s[n as int] == DELIMITER,
    ensures
        spec_first_len(s) == n,
    decreases n,
{
    if n > 0 {
        let rest = s.skip(1);
        assert forall|i: int| 0 <= i < n - 1 implies rest[i] != DELIMITER by {
            assert(rest[i] == s[i + 1]);
        }
        lemma_first_len(rest, (n - 1) as nat);
    }
}

/// A part of a text between delimiters holds no delimiter.
pub proof fn lemma_first_len_bound(s: Seq<char>)
    ensures
        spec_first_len(s) <= s.len(),
        forall|i: int| 0 <= i < spec_first_len(s) ==> s[i] != DELIMITER,
        spec_first_len(s) < s.len() ==> s[spec_first_len(s) as int] == DELIMITER,
    decreases s.len(),
{
    if s.len() > 0 && s[0] != DELIMITER {
        let rest = s.skip(1);
        lemma_first_len_bound(rest);
        assert forall|i: int| 0 <= i < spec_first_len(s) implies s[i] != DELIMITER by {
            if i > 0 {
                assert(rest[i - 1] == s[i]);
            }
        }
    }
}

/// A field of a hash.
#[derive(Clone, Copy, Debug)]
pub struct Field<'a>(&'a str);

impl<'a> View for Field<'a> {
    type V = Seq<char>;

    closed spec fn view(&self) -> Seq<char> {
        self.0@
    }
}

impl<'a> Field<'a> {
    /// The invariant of a field: its text is one that a field may have.
    pub open spec fn inv(&self) -> bool {
        is_valid_field(self@)
    }

    /// Create a field from its text.
    ///
    /// Fails where the text is empty, or holds a character that may not
    /// stand in a field.
    pub fn new(s: &'a str) -> (res: Result<Self, Error>)
        ensures
            match res {
                Ok(field) => field.inv() && field@ == s@,
                Err(_) => !is_valid_field(s@),
            },
    {
        let field = Field(s);
        field.validate()?;
        Ok(field)
    }

    /// The text of the field.
    pub fn as_str(self) -> (s: &'a str)
        ensures
            s@ == self@,
    {
        self.0
    }

    /// Check that the field is not empty, and made of the characters that
    /// may stand in one.
    pub fn validate(self) -> (res: Result<(), Error>)
        ensures
            res is Ok <==> is_valid_field(self@),
    {
        let len = self.0.unicode_len();
        if len == 0 {
            return Err(Error {  });
        }
        let mut i: usize = 0;
        while i < len
            invariant
                i <= len,
                len == self.0@.len(),
                forall|j: int| 0 <= j < i ==> is_field_char(#[trigger] self.0@[j]),
            decreases len - i,
        {
            let c = self.0.get_char(i);
            let allowed = ('A' <= c && c <= 'Z') || ('a' <= c && c <= 'z') || ('0' <= c && c
                <= '9') || c == '.' || c == '/' || c == '+' || c == '=' || c == ',' || c == '-';
            if !allowed {
                assert(!is_field_char(self.0@[i as int]));
                return Err(Error {  });
            }
            i += 1;
        }
        Ok(())
    }
}

/// Check that `id` is an identifier of an algorithm: not empty, made of
/// lower case letters, digits and `-`, and neither beginning nor ending
/// with `-`.
pub fn validate_id(id: &str) -> (res: Result<(), Error>)
    ensures
        res is Ok <==> is_valid_id(id@),
{
    let len = id.unicode_len();
    if len == 0 {
        return Err(Error {  });
    }
    let first = id.get_char(0);
    let last = id.get_char(len - 1);
    if !(('a' <= first && first <= 'z') || ('0' <= first && first <= '9')) {
        return Err(Error {  });
    }
    if !(('a' <= last && last <= 'z') || ('0' <= last && last <= '9')) {
        return Err(Error {  });
    }
    let mut i: usize = 0;
    while i < len
        invariant
            i <= len,
            len == id@.len(),
            forall|j: int| 0 <= j < i ==> is_id_char(#[trigger] id@[j]),
        decreases len - i,
    {
        let c = id.get_char(i);
        if !(('a' <= c && c <= 'z') || ('0' <= c && c <= '9') || c == '-') {
            assert(!is_id_char(id@[i as int]));
            return Err(Error {  });
        }
        i += 1;
    }
    Ok(())
}

/// The texts of fields.
pub open spec fn spec_views(fields: Seq<Field<'_>>) -> Seq<Seq<char>> {
    Seq::new(fields.len(), |i: int| fields[i]@)
}

/// The parts of `s` between its delimiters, each as a field, whether it is
/// one that a field may have or not.
fn split<'a>(s: &'a str) -> (fields: Vec<Field<'a>>)
    ensures
        spec_views(fields@) == spec_split(s@),
{
    let len = s.unicode_len();
    let mut fields: Vec<Field<'a>> = Vec::new();
    let mut start: usize = 0;
    proof {
        assert(s@.skip(0) =~= s@);
        assert(spec_views(fields@) + spec_split(s@) =~= spec_split(s@));
    }
    while start < len
        invariant
            start <= len,
            len == s@.len(),
            spec_views(fields@) + spec_split(s@.skip(start as int)) == spec_split(s@),
        decreases len - start,
    {
        let ghost rest = s@.skip(start as int);
        let mut end: usize = start;
        while end < len && s.get_char(end) != DELIMITER
            invariant
                start <= end <= len,
                len == s@.len(),
                rest == s@.skip(start as int),
                forall|j: int| 0 <= j < end - start ==> rest[j] != DELIMITER,
            decreases len - end,
        {
            end += 1;
        }
        proof {
            lemma_first_len(rest, (end - start) as nat);
        }
        let field = Field(s.substring_char(start, end));
        let ghost before = fields@;
        fields.push(field);
        proof {
            assert(field@ =~= rest.take(end - start));
            assert(spec_views(fields@) =~= spec_views(before) + seq![field@]);
            if end < len {
                assert(rest.skip(end - start + 1) =~= s@.skip(end + 1));
                assert(spec_split(rest) == seq![field@] + spec_split(s@.skip(end + 1)));
                assert(spec_views(fields@) + spec_split(s@.skip(end + 1)) =~= spec_views(before)
                    + spec_split(rest));
            } else {
                assert(rest.take(end - start) =~= rest);
                assert(spec_split(rest) == seq![field@]);
                assert(s@.skip(len as int) =~= Seq::<char>::empty());
                assert(spec_views(fields@) + spec_split(s@.skip(len as int)) =~= spec_views(
                    before,
                ) + spec_split(rest));
            }
        }
        start = if end < len {
            end + 1
        } else {
            end
        };
    }
    proof {
        assert(s@.skip(start as int) =~= Seq::<char>::empty());
        assert(spec_views(fields@) + spec_split(Seq::<char>::empty()) =~= spec_views(fields@));
    }
    fields
}

/// Check that `s` is a hash in the Modular Crypt Format.
pub fn validate(s: &str) -> (res: Result<(), Error>)
    ensures
        res is Ok <==> is_valid_mcf(s@),
{
    let len = s.unicode_len();
    // a delimiter opens the hash
    if len == 0 || s.get_char(0) != DELIMITER {
        return Err(Error {  });
    }
    // and none ends it
    if s.get_char(len - 1) == DELIMITER {
        return Err(Error {  });
    }
    let fields = split(s.substring_char(1, len));
    assert(s@.subrange(1, len as int) =~= s@.skip(1));
    assert(spec_views(fields@).len() == fields@.len());
    if fields.len() == 0 {
        assert(s@.skip(1).len() > 0);
        return Err(Error {  });
    }
    assert(spec_views(fields@)[0] == fields@[0]@);
    validate_id(fields[0].as_str())?;
    let mut i: usize = 1;
    while i < fields.len()
        invariant
            1 <= i <= fields@.len(),
            spec_views(fields@) == spec_split(s@.skip(1)),
            forall|j: int| 1 <= j < i ==> is_valid_field(#[trigger] spec_split(s@.skip(1))[j]),
        decreases fields@.len() - i,
    {
        assert(spec_views(fields@)[i as int] == fields@[i as int]@);
        if fields[i].validate().is_err() {
            return Err(Error {  });
        }
        i += 1;
    }
    Ok(())
}

/// A text without a delimiter is one part.
pub proof fn lemma_split_one(s: Seq<char>)
    requires
        s.len() > 0,
        forall|i: int| 0 <= i < s.len() ==> s[i] != DELIMITER,
    ensures
        spec_split(s) == seq![s],
{
    lemma_first_len(s, s.len());
}

/// A delimiter and a part behind a text that does not end with a delimiter
/// add one part to its parts.
pub proof fn lemma_split_push(s: Seq<char>, field: Seq<char>)
    requires
        s.len() > 0,
        s.last() != DELIMITER,
        field.len() > 0,
        forall|i: int| 0 <= i < field.len() ==> field[i] != DELIMITER,
    ensures
        spec_split(s + seq![DELIMITER] + field) == spec_split(s).push(field),
    decreases s.len(),
{
    let longer = s + seq![DELIMITER] + field;
    let n = spec_first_len(s);
    lemma_first_len_bound(s);
    assert forall|i: int| 0 <= i < n implies longer[i] != DELIMITER by {
        assert(longer[i] == s[i]);
    }
    assert(longer[n as int] == DELIMITER);
    lemma_first_len(longer, n);
    assert(longer.take(n as int) =~= s.take(n as int));
    if n >= s.len() {
        assert(s.take(n as int) =~= s);
        assert(longer.skip(n as int + 1) =~= field);
        lemma_split_one(field);
        assert(seq![s] + seq![field] =~= seq![s].push(field));
    } else {
        let rest = s.skip(n as int + 1);
        assert(rest.len() > 0 && rest.last() == s.last());
        assert(longer.skip(n as int + 1) =~= rest + seq![DELIMITER] + field);
        lemma_split_push(rest, field);
        assert(seq![s.take(n as int)] + spec_split(rest).push(field) =~= (seq![s.take(n as int)]
            + spec_split(rest)).push(field));
    }
}

/// The identifier of the algorithm of the hash `s`: the first part behind
/// the delimiter that opens the hash.
pub open spec fn spec_id(s: Seq<char>) -> Seq<char> {
    spec_split(s.skip(1))[0]
}

/// The fields of the hash `s`: the parts behind the identifier.
pub open spec fn spec_fields(s: Seq<char>) -> Seq<Seq<char>> {
    spec_split(s.skip(1)).skip(1)
}

/// A hash in the Modular Crypt Format that borrows its text.
#[derive(Clone, Copy, Debug)]
pub struct McfHashRef<'a>(&'a str);

impl<'a> View for McfHashRef<'a> {
    type V = Seq<char>;

    closed spec fn view(&self) -> Seq<char> {
        self.0@
    }
}

impl<'a> McfHashRef<'a> {
    /// The invariant of a hash: its text is a hash in the Modular Crypt
    /// Format.
    pub open spec fn inv(&self) -> bool {
        is_valid_mcf(self@)
    }

    /// Read a hash. Fails where `s` is no hash in the Modular Crypt
    /// Format.
    pub fn new(s: &'a str) -> (res: Result<Self, Error>)
        ensures
            match res {
                Ok(hash) => hash.inv() && hash@ == s@,
                Err(_) => !is_valid_mcf(s@),
            },
    {
        validate(s)?;
        Ok(Self(s))
    }

    /// The text of the hash.
    pub fn as_str(self) -> (s: &'a str)
        ensures
            s@ == self@,
    {
        self.0
    }

    /// The identifier of the algorithm.
    pub fn id(self) -> (id: &'a str)
        requires
            self.inv(),
        ensures
            id@ == spec_id(self@),
            is_valid_id(id@),
    {
        let len = self.0.unicode_len();
        let parts = split(self.0.substring_char(1, len));
        assert(self@.subrange(1, len as int) =~= self@.skip(1));
        assert(spec_views(parts@).len() == parts@.len());
        assert(spec_views(parts@)[0] == parts@[0]@);
        parts[0].as_str()
    }

    /// The fields of the hash, without the identifier.
    pub fn fields(self) -> (fields: Vec<Field<'a>>)
        requires
            self.inv(),
        ensures
            spec_views(fields@) == spec_fields(self@),
            forall|i: int| 0 <= i < fields@.len() ==> (#[trigger] fields@[i]).inv(),
    {
        let len = self.0.unicode_len();
        let mut fields = split(self.0.substring_char(1, len));
        assert(self@.subrange(1, len as int) =~= self@.skip(1));
        let ghost parts = fields@;
        assert(spec_views(parts).len() == parts.len());
        // the identifier is no field
        let _ = fields.remove(0);
        assert(spec_views(fields@) =~= spec_fields(self@)) by {
            assert forall|i: int| 0 <= i < fields@.len() implies spec_views(fields@)[i]
                == spec_fields(self@)[i] by {
                assert(fields@[i] == parts[i + 1]);
                assert(spec_views(parts)[i + 1] == parts[i + 1]@);
            }
        }
        assert forall|i: int| 0 <= i < fields@.len() implies (#[trigger] fields@[i]).inv() by {
            assert(fields@[i] == parts[i + 1]);
            assert(spec_views(parts)[i + 1] == parts[i + 1]@);
        }
        fields
    }
}

/// A hash in the Modular Crypt Format that owns its text.
#[derive(Clone, Debug)]
pub struct McfHash(String);

impl View for McfHash {
    type V = Seq<char>;

    closed spec fn view(&self) -> Seq<char> {
        self.0@
    }
}

impl McfHash {
    /// The invariant of a hash: its text is a hash in the Modular Crypt
    /// Format.
    pub open spec fn inv(&self) -> bool {
        is_valid_mcf(self@)
    }

    /// Read a hash. Fails where `s` is no hash in the Modular Crypt
    /// Format.
    pub fn new(s: &str) -> (res: Result<McfHash, Error>)
        ensures
            match res {
                Ok(hash) => hash.inv() && hash@ == s@,
                Err(_) => !is_valid_mcf(s@),
            },
    {
        validate(s)?;
        Ok(Self(String::from_str(s)))
    }

    /// Create a hash from the identifier of an algorithm: the hash has no
    /// field yet.
    ///
    /// Fails where `id` is no identifier.
    pub fn from_id(id: &str) -> (res: Result<McfHash, Error>)
        ensures
            match res {
                Ok(hash) => is_valid_id(id@) && hash.inv() && hash@ == seq![DELIMITER] + id@,
                Err(_) => !is_valid_id(id@),
            },
    {
        validate_id(id)?;
        let mut hash = String::from_str("$");
        hash.append(id);
        proof {
            reveal_strlit("$");
            assert("$"@ =~= seq![DELIMITER]);
            assert(hash@.skip(1) =~= id@);
            assert forall|i: int| 0 <= i < id@.len() implies id@[i] != DELIMITER by {
                assert(is_id_char(id@[i]));
            }
            lemma_split_one(id@);
        }
        Ok(Self(hash))
    }

    /// The text of the hash.
    pub fn as_str(&self) -> (s: &str)
        ensures
            s@ == self@,
    {
        self.0.as_str()
    }

    /// This hash, borrowed.
    pub fn as_mcf_hash_ref(&self) -> (hash: McfHashRef<'_>)
        ensures
            hash@ == self@,
    {
        McfHashRef(self.as_str())
    }

    /// The identifier of the algorithm.
    pub fn id(&self) -> (id: &str)
        requires
            self.inv(),
        ensures
            id@ == spec_id(self@),
            is_valid_id(id@),
    {
        self.as_mcf_hash_ref().id()
    }

    /// The fields of the hash, without the identifier.
    pub fn fields(&self) -> (fields: Vec<Field<'_>>)
        requires
            self.inv(),
        ensures
            spec_views(fields@) == spec_fields(self@),
            forall|i: int| 0 <= i < fields@.len() ==> (#[trigger] fields@[i]).inv(),
    {
        self.as_mcf_hash_ref().fields()
    }

    /// Add a field at the end of the hash, behind a delimiter.
    pub fn push_field(&mut self, field: Field<'_>)
        requires
            old(self).inv(),
            field.inv(),
        ensures
            final(self).inv(),
            final(self)@ == old(self)@ + seq![DELIMITER] + field@,
    {
        proof {
            reveal_strlit("$");
            assert("$"@ =~= seq![DELIMITER]);
        }
        let ghost before = self.0@;
        self.0.append("$");
        self.0.append(field.as_str());
        proof {
            let after = self.0@;
            assert(after =~= before + seq![DELIMITER] + field@);
            assert(after.skip(1) =~= before.skip(1) + seq![DELIMITER] + field@);
            assert(before.skip(1).last() == before.last());
            assert forall|i: int| 0 <= i < field@.len() implies field@[i] != DELIMITER by {
                assert(is_field_char(field@[i]));
            }
            lemma_split_push(before.skip(1), field@);
            assert(after.last() == field@.last());
            let parts = spec_split(before.skip(1));
            assert(parts.push(field@)[0] == parts[0]);
        }
    }
}

} // verus!
