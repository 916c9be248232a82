//! The record that a cache file keeps for one repository, and its line.

use vstd::prelude::*;
use crate::decimal::{
    decimal, i64_of, lemma_i64_round_trip, lemma_signed_decimal_word, lemma_u64_round_trip,
    parse_i64, parse_u64, push_i64, push_u64, signed_decimal, u64_of,
};
use crate::identity::{is_hex_digit, is_identity, lemma_identity_is_word};
use crate::text::{
    chars_of, is_word, lemma_spaced_single_line, lemma_tokens_of_spaced, lemma_word_single_line,
    push_str, single_line, spaced, split_tokens, string_of, tokens,
};

verus! {

/// What a record says, as mathematics.
pub struct RecordView {
    pub identity: Seq<char>,
    pub commit_count: int,
    pub loc_total: nat,
    pub loc_added: nat,
    pub loc_deleted: nat,
}

/// The cached result for one repository.
pub struct CacheRecord {
    /// The identity of the repository's full name.
    pub identity: String,
    /// The repository's commit count when the record was computed.
    pub commit_count: i64,
    /// The number of commits that the tracked owner authored.
    pub loc_total: u64,
    /// The lines that the tracked owner added.
    pub loc_added: u64,
    /// The lines that the tracked owner deleted.
    pub loc_deleted: u64,
}

impl View for CacheRecord {
    type V = RecordView;

    open spec fn view(&self) -> RecordView {
        RecordView {
            identity: self.identity@,
            commit_count: self.commit_count as int,
            loc_total: self.loc_total as nat,
            loc_added: self.loc_added as nat,
            loc_deleted: self.loc_deleted as nat,
        }
    }
}

/// A record that a `CacheRecord` can hold: its identity has the shape of one
/// and its numbers fit their fields.
pub open spec fn storable(r: RecordView) -> bool {
    &&& is_identity(r.identity)
    &&& i64::MIN <= r.commit_count <= i64::MAX
    &&& r.loc_total <= u64::MAX
    &&& r.loc_added <= u64::MAX
    &&& r.loc_deleted <= u64::MAX
}

/// The record of a repository of which nothing was computed yet.
pub open spec fn zero_record(identity: Seq<char>) -> RecordView {
    RecordView { identity, commit_count: 0, loc_total: 0, loc_added: 0, loc_deleted: 0 }
}

/// The five words of a record's line.
pub open spec fn record_words(r: RecordView) -> Seq<Seq<char>> {
    seq![
        r.identity,
        signed_decimal(r.commit_count),
        decimal(r.loc_total),
        decimal(r.loc_added),
        decimal(r.loc_deleted),
    ]
}

/// The line of a record: `<identity> <commitCount> <locTotal> <locAdded> <locDeleted>`.
pub open spec fn record_line(r: RecordView) -> Seq<char> {
    spaced(record_words(r))
}

/// The record that a line holds: five whitespace-separated words, an identity
/// and four numbers that fit their fields. Any other line holds none.
pub open spec fn record_of_line(line: Seq<char>) -> Option<RecordView> {
    let t = tokens(line);
    if t.len() == 5 && is_identity(t[0]) && i64_of(t[1]) is Some && u64_of(t[2]) is Some && u64_of(
        t[3],
    ) is Some && u64_of(t[4]) is Some {
        Some(
            RecordView {
                identity: t[0],
                commit_count: i64_of(t[1])->0 as int,
                loc_total: u64_of(t[2])->0 as nat,
                loc_added: u64_of(t[3])->0 as nat,
                loc_deleted: u64_of(t[4])->0 as nat,
            },
        )
    } else {
        None
    }
}

/// Reading the line of a record gives the record back, and the line holds no
/// newline.
pub proof fn lemma_record_round_trip(r: RecordView)
    requires
        storable(r),
    ensures
        record_of_line(record_line(r)) == Some(r),
        single_line(record_line(r)),
{
    let words = record_words(r);
    lemma_identity_is_word(r.identity);
    lemma_signed_decimal_word(r.commit_count);
    lemma_signed_decimal_word(r.loc_total as int);
    lemma_signed_decimal_word(r.loc_added as int);
    lemma_signed_decimal_word(r.loc_deleted as int);
    assert forall|i: int| 0 <= i < words.len() implies is_word(#[trigger] words[i]) by {}
    lemma_tokens_of_spaced(words);
    assert forall|i: int| 0 <= i < words.len() implies single_line(#[trigger] words[i]) by {
        lemma_word_single_line(words[i]);
    }
    lemma_spaced_single_line(words);
    lemma_i64_round_trip(r.commit_count as i64);
    lemma_u64_round_trip(r.loc_total as u64);
    lemma_u64_round_trip(r.loc_added as u64);
    lemma_u64_round_trip(r.loc_deleted as u64);
    let t = tokens(record_line(r));
    assert(t[0] == r.identity);
    assert(t[1] == signed_decimal(r.commit_count));
    assert(t[2] == decimal(r.loc_total));
    assert(t[3] == decimal(r.loc_added));
    assert(t[4] == decimal(r.loc_deleted));
}

/// Whether `s` has the shape of an identity.
pub fn has_identity_shape(s: &Vec<char>) -> (r: bool)
    ensures
        r == is_identity(s@),
{
    if s.len() != 64 {
        return false;
    }
    let mut i: usize = 0;
    while i < 64
        invariant
            s.len() == 64,
            i <= 64,
            forall|k: int| 0 <= k < i ==> is_hex_digit(#[trigger] s@[k]),
        decreases 64 - i,
    {
        let c: char = s[i];
        if !(('0' <= c && c <= '9') || ('a' <= c && c <= 'f')) {
            return false;
        }
        i = i + 1;
    }
    true
}

impl CacheRecord {
    /// The identity has the shape of one.
    pub open spec fn well_formed(&self) -> bool {
        is_identity(self.identity@)
    }

    /// The record of a repository of which nothing was computed yet.
    pub fn zero(identity: String) -> (r: CacheRecord)
        ensures
            r@ == zero_record(identity@),
    {
        CacheRecord { identity, commit_count: 0, loc_total: 0, loc_added: 0, loc_deleted: 0 }
    }

    /// A copy of the record.
    pub fn duplicate(&self) -> (r: CacheRecord)
        ensures
            r@ == self@,
    {
        CacheRecord {
            identity: self.identity.clone(),
            commit_count: self.commit_count,
            loc_total: self.loc_total,
            loc_added: self.loc_added,
            loc_deleted: self.loc_deleted,
        }
    }

    /// Reads the record that a line holds, if it holds one.
    pub fn parse(line: &str) -> (r: Option<CacheRecord>)
        ensures
            match r {
                Some(record) => record_of_line(line@) == Some(record@) && record.well_formed(),
                None => record_of_line(line@) is None,
            },
    {
        let chars = chars_of(line);
        CacheRecord::parse_chars(&chars)
    }

    /// Reads the record that a line of characters holds, if it holds one.
    pub fn parse_chars(line: &Vec<char>) -> (r: Option<CacheRecord>)
        ensures
            match r {
                Some(record) => record_of_line(line@) == Some(record@) && record.well_formed(),
                None => record_of_line(line@) is None,
            },
    {
        let words = split_tokens(line);
        if words.len() != 5 {
            return None;
        }
        assert(forall|i: int| 0 <= i < 5 ==> tokens(line@)[i] == (#[trigger] words@[i])@);
        if !has_identity_shape(&words[0]) {
            return None;
        }
        let commit_count = match parse_i64(&words[1]) {
            Some(v) => v,
            None => { return None; },
        };
        let loc_total = match parse_u64(&words[2]) {
            Some(v) => v,
            None => { return None; },
        };
        let loc_added = match parse_u64(&words[3]) {
            Some(v) => v,
            None => { return None; },
        };
        let loc_deleted = match parse_u64(&words[4]) {
            Some(v) => v,
            None => { return None; },
        };
        Some(
            CacheRecord {
                identity: string_of(&words[0]),
                commit_count,
                loc_total,
                loc_added,
                loc_deleted,
            },
        )
    }

    /// Appends the line of the record, without a newline.
    pub fn push_line(&self, out: &mut Vec<char>)
        ensures
            final(out)@ == old(out)@ + record_line(self@),
    {
        let ghost before = out@;
        let ghost w = record_words(self@);
        proof {
            assert(spaced(w.subrange(4, 5)) == w[4]) by {
                assert(w.subrange(4, 5).first() == w[4]);
            }
            assert(spaced(w.subrange(3, 5)) == w[3] + seq![' '] + w[4]) by {
                assert(w.subrange(3, 5).drop_first() == w.subrange(4, 5));
                assert(w.subrange(3, 5).first() == w[3]);
            }
            assert(spaced(w.subrange(2, 5)) == w[2] + seq![' '] + spaced(w.subrange(3, 5))) by {
                assert(w.subrange(2, 5).drop_first() == w.subrange(3, 5));
                assert(w.subrange(2, 5).first() == w[2]);
            }
            assert(spaced(w.subrange(1, 5)) == w[1] + seq![' '] + spaced(w.subrange(2, 5))) by {
                assert(w.subrange(1, 5).drop_first() == w.subrange(2, 5));
                assert(w.subrange(1, 5).first() == w[1]);
            }
            assert(spaced(w) == w[0] + seq![' '] + spaced(w.subrange(1, 5))) by {
                assert(w.drop_first() == w.subrange(1, 5));
            }
        }
        push_str(out, self.identity.as_str());
        out.push(' ');
        push_i64(out, self.commit_count);
        out.push(' ');
        push_u64(out, self.loc_total);
        out.push(' ');
        push_u64(out, self.loc_added);
        out.push(' ');
        push_u64(out, self.loc_deleted);
        assert(out@ == before + record_line(self@));
    }

    /// The line of the record, without a newline.
    pub fn render(&self) -> (r: String)
        ensures
            r@ == record_line(self@),
    {
        let mut out: Vec<char> = Vec::new();
        self.push_line(&mut out);
        assert(Seq::<char>::empty() + record_line(self@) == record_line(self@));
        string_of(&out)
    }
}

} // verus!
