//! The record model: one parsed input row, and the splitting of its
//! subdivision field into a hierarchical path.

use vstd::prelude::*;

verus! {

/// An error of the report pipeline.
#[derive(Debug, Clone, PartialEq, Eq)]
pub enum ReportError {
    /// A raw row held fewer than the three mandatory fields
    /// (group, metric, subdivision path).
    MalformedRow { fields_found: usize },
    /// A value field of some record is not a valid numeric literal.
    /// `row` is the index of the record, `column` the index of the
    /// offending value within that record.
    InvalidNumericValue { row: usize, column: usize },
}

/// The view of a sequence of strings: the sequence of their character
/// sequences.
pub open spec fn strs_view(v: Seq<String>) -> Seq<Seq<char>> {
    v.map_values(|x: String| x@)
}

/// What splitting a character sequence on `'_'` yields: the sequence of
/// segments between delimiters. An empty input yields a single empty
/// segment, matching split-on-delimiter semantics.
pub open spec fn split_seq(s: Seq<char>) -> Seq<Seq<char>>
    decreases s.len(),
{
    if s.len() == 0 {
        seq![Seq::<char>::empty()]
    } else {
        let rest = split_seq(s.drop_first());
        if s[0] == '_' {
            seq![Seq::<char>::empty()] + rest
        } else {
            seq![seq![s[0]] + rest[0]] + rest.drop_first()
        }
    }
}

/// Viewing a pushed sequence of strings pushes the view.
pub proof fn lemma_strs_view_push(v: Seq<String>, x: String)
    ensures
        strs_view(v.push(x)) =~= strs_view(v).push(x@),
{
}

/// Splitting always yields at least one segment.
pub proof fn lemma_split_seq_len(s: Seq<char>)
    ensures
        split_seq(s).len() >= 1,
    decreases s.len(),
{
    if s.len() > 0 {
        lemma_split_seq_len(s.drop_first());
    }
}

/// A delimiter-free sequence is a single segment.
pub proof fn lemma_split_no_delim(s: Seq<char>)
    requires
        forall|k: int| 0 <= k < s.len() ==> s[k] != '_',
    ensures
        split_seq(s) == seq![s],
    decreases s.len(),
{
    if s.len() == 0 {
        assert(split_seq(s) == seq![Seq::<char>::empty()]);
        assert(s =~= Seq::<char>::empty());
    } else {
        lemma_split_no_delim(s.drop_first());
        lemma_split_seq_len(s.drop_first());
        assert(seq![s[0]] + s.drop_first() =~= s);
        assert(split_seq(s) =~= seq![s]);
    }
}

/// Splitting at the first delimiter: the part before it is the first
/// segment, and the rest splits independently.
pub proof fn lemma_split_at_delim(s: Seq<char>, p: int)
    requires
        0 <= p < s.len(),
        s[p] == '_',
        forall|k: int| 0 <= k < p ==> s[k] != '_',
    ensures
        split_seq(s) == seq![s.subrange(0, p)] + split_seq(s.subrange(p + 1, s.len() as int)),
    decreases p,
{
    if p == 0 {
        assert(s.drop_first() =~= s.subrange(1, s.len() as int));
        assert(s.subrange(0, 0) =~= Seq::<char>::empty());
        assert(split_seq(s) =~= seq![s.subrange(0, 0)] + split_seq(
            s.subrange(p + 1, s.len() as int),
        ));
    } else {
        let t = s.drop_first();
        assert(t[p - 1] == '_');
        assert(forall|k: int| 0 <= k < p - 1 ==> t[k] != '_');
        lemma_split_at_delim(t, p - 1);
        lemma_split_seq_len(t.subrange(p, t.len() as int));
        assert(seq![s[0]] + t.subrange(0, p - 1) =~= s.subrange(0, p));
        assert(t.subrange(p, t.len() as int) =~= s.subrange(p + 1, s.len() as int));
        assert(split_seq(s) =~= seq![s.subrange(0, p)] + split_seq(
            s.subrange(p + 1, s.len() as int),
        ));
    }
}

/// Split a raw subdivision field on `'_'` into its path segments.
pub fn split_path(s: &str) -> (segs: Vec<String>)
    ensures
        strs_view(segs@) == split_seq(s@),
        segs@.len() >= 1,
{
    let len: usize = s.unicode_len();
    let mut segs: Vec<String> = Vec::new();
    let mut start: usize = 0;
    let mut j: usize = 0;
    proof {
        assert(s@.subrange(0, len as int) =~= s@);
        assert(strs_view(segs@) =~= Seq::<Seq<char>>::empty());
        assert(strs_view(segs@) + split_seq(s@) =~= split_seq(s@));
    }
    while j < len
        invariant
            start <= j <= len,
            len == s@.len(),
            forall|k: int| start <= k < j ==> s@[k] != '_',
            split_seq(s@) =~= strs_view(segs@) + split_seq(
                s@.subrange(start as int, len as int),
            ),
        decreases len - j,
    {
        if s.get_char(j) == '_' {
            let seg: String = s.substring_char(start, j).to_owned();
            let ghost pre = segs@;
            let ghost segv = seg;
            segs.push(seg);
            proof {
                let suf = s@.subrange(start as int, len as int);
                lemma_split_at_delim(suf, j - start);
                assert(suf.subrange(0, j - start) =~= s@.subrange(start as int, j as int));
                assert(suf.subrange(j - start + 1, suf.len() as int) =~= s@.subrange(
                    j + 1,
                    len as int,
                ));
                lemma_strs_view_push(pre, segv);
                assert(split_seq(s@) =~= strs_view(segs@) + split_seq(
                    s@.subrange(j + 1, len as int),
                ));
            }
            start = j + 1;
        }
        j += 1;
    }
    let last: String = s.substring_char(start, len).to_owned();
    let ghost pre = segs@;
    let ghost lastv = last;
    segs.push(last);
    proof {
        lemma_split_no_delim(s@.subrange(start as int, len as int));
        lemma_strs_view_push(pre, lastv);
        assert(strs_view(segs@) =~= split_seq(s@));
    }
    segs
}

/// The parsed representation of one input row.
#[derive(Debug, Clone, PartialEq)]
pub struct Record {
    pub group: String,
    pub metric: String,
    pub path: Vec<String>,
    pub values: Vec<String>,
}

/// The mathematical view of a record.
pub struct RecordV {
    pub group: Seq<char>,
    pub metric: Seq<char>,
    pub path: Seq<Seq<char>>,
    pub values: Seq<Seq<char>>,
}

impl View for Record {
    type V = RecordV;

    open spec fn view(&self) -> RecordV {
        RecordV {
            group: self.group@,
            metric: self.metric@,
            path: strs_view(self.path@),
            values: strs_view(self.values@),
        }
    }
}

impl RecordV {
    /// Every record's path is non-empty: splitting always yields at least
    /// one segment.
    pub open spec fn wf(self) -> bool {
        self.path.len() >= 1
    }
}

impl Record {
    /// Parse one raw row of fields into a record.
    ///
    /// The first three fields are group, metric and subdivision path (the
    /// path is split on `'_'`); the remaining fields are the values. Fails
    /// if and only if fewer than three fields are present.
    pub fn from_fields(fields: &Vec<String>) -> (r: Result<Record, ReportError>)
        ensures
            fields@.len() < 3 ==> r == Result::<Record, ReportError>::Err(
                ReportError::MalformedRow { fields_found: fields@.len() as usize },
            ),
            fields@.len() >= 3 ==> r is Ok && {
                let rec = r->Ok_0@;
                &&& rec.wf()
                &&& rec.group == fields@[0]@
                &&& rec.metric == fields@[1]@
                &&& rec.path == split_seq(fields@[2]@)
                &&& rec.values == strs_view(fields@).skip(3)
            },
    {
        if fields.len() < 3 {
            return Err(ReportError::MalformedRow { fields_found: fields.len() });
        }
        let group = fields[0].clone();
        let metric = fields[1].clone();
        let path = split_path(fields[2].as_str());
        let mut values: Vec<String> = Vec::new();
        let mut j: usize = 3;
        proof {
            assert(strs_view(values@) =~= strs_view(fields@).subrange(3, 3));
        }
        while j < fields.len()
            invariant
                3 <= j <= fields@.len(),
                strs_view(values@) =~= strs_view(fields@).subrange(3, j as int),
            decreases fields@.len() - j,
        {
            let x = fields[j].clone();
            let ghost pre = values@;
            let ghost xv = x;
            values.push(x);
            proof {
                lemma_strs_view_push(pre, xv);
                assert(strs_view(values@) =~= strs_view(fields@).subrange(3, j + 1));
            }
            j += 1;
        }
        proof {
            assert(strs_view(values@) =~= strs_view(fields@).skip(3));
        }
        Ok(Record { group, metric, path, values })
    }
}

} // verus!
