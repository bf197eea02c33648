//! The MIME-extension table: parsed once from the `mime.types` text
//! format (`#` comments, blank lines, then one media type followed by its
//! extensions per line) and consulted by file extension.

use crate::text;
use crate::text::{rfind, tokens_from};
use vstd::prelude::*;
use vstd::string::StrSliceExecFns;

verus! {

/// The table, as `(extension, media type)` pairs in the order the lines
/// gave them; a later line wins over an earlier one.
#[derive(Debug, PartialEq)]
pub struct MimeDb(pub Vec<(String, String)>);

/// What can go wrong parsing the table.
#[derive(Debug, PartialEq, Eq, Structural, Clone, Copy)]
pub enum MimeDbError {
    Malformed,
}

/// The map the pairs denote: each extension names the media type of the
/// last pair carrying it.
pub open spec fn db_map(entries: Seq<(String, String)>) -> Map<Seq<char>, Seq<char>>
    decreases entries.len(),
{
    if entries.len() == 0 {
        Map::empty()
    } else {
        db_map(entries.drop_last()).insert(entries.last().0@, entries.last().1@)
    }
}

/// The extension of `name`: what follows the last `.`, if any.
pub open spec fn ext_of(name: Seq<char>) -> Option<Seq<char>> {
    let d = rfind(name, name.len() as int, '.');
    if d < 0 {
        None
    } else {
        Some(name.subrange(d + 1, name.len() as int))
    }
}

/// Whether a line carries no entries at all.
pub open spec fn line_skipped(line: Seq<char>) -> bool {
    line.len() == 0 || line[0] == '#'
}

/// One `(extension, media type)` pair for each token, all naming `m`.
pub open spec fn keyed(m: Seq<char>, ts: Seq<Seq<char>>) -> Seq<(Seq<char>, Seq<char>)>
    decreases ts.len(),
{
    if ts.len() == 0 {
        Seq::empty()
    } else {
        seq![(ts[0], m)] + keyed(m, ts.skip(1))
    }
}

/// The `(extension, media type)` pairs of the given lines in order, or
/// the error for the first line that is neither skippable nor tokenizable.
pub open spec fn mime_lines(lines: Seq<Seq<char>>) -> Result<
    Seq<(Seq<char>, Seq<char>)>,
    MimeDbError,
>
    decreases lines.len(),
{
    if lines.len() == 0 {
        Ok(Seq::empty())
    } else if line_skipped(lines[0]) {
        mime_lines(lines.skip(1))
    } else {
        let ts = tokens_from(lines[0], 0);
        if ts.len() == 0 {
            Err(MimeDbError::Malformed)
        } else {
            match mime_lines(lines.skip(1)) {
                Err(e) => Err(e),
                Ok(rest) => Ok(keyed(ts[0], ts.skip(1)) + rest),
            }
        }
    }
}

proof fn lemma_db_map_suffix(entries: Seq<(String, String)>, e: Seq<char>, i: int)
    requires
        0 <= i <= entries.len(),
        forall|k: int| i <= k < entries.len() ==> entries[k].0@ != e,
    ensures
        db_map(entries).contains_key(e) <==> db_map(entries.take(i)).contains_key(e),
        db_map(entries).contains_key(e) ==> db_map(entries)[e] == db_map(entries.take(i))[e],
    decreases entries.len() - i,
{
    if i == entries.len() {
        assert(entries.take(i) =~= entries);
    } else {
        let t1 = entries.take(i + 1);
        assert(t1.drop_last() =~= entries.take(i));
        assert(t1.last() == entries[i]);
        lemma_db_map_suffix(entries, e, i + 1);
    }
}

impl MimeDb {
    /// The table parsed from the lines of a `mime.types` file, as
    /// `mime_lines` describes.
    pub fn new(lines: &Vec<String>) -> (r: Result<MimeDb, MimeDbError>)
        ensures
            match mime_lines(lines.deep_view()) {
                Ok(es) => r matches Ok(db) && db.0.deep_view() == es,
                Err(e) => r == Err::<MimeDb, MimeDbError>(e),
            },
    {
        let ghost dv = lines.deep_view();
        let mut acc: Vec<(String, String)> = Vec::new();
        let mut li: usize = 0;
        proof {
            assert(dv.skip(0) =~= dv);
            if mime_lines(dv) is Ok {
                assert(Seq::<(Seq<char>, Seq<char>)>::empty() + mime_lines(dv).unwrap()
                    =~~= mime_lines(dv).unwrap());
            }
        }
        while li < lines.len()
            invariant
                li <= lines.len() == dv.len(),
                dv == lines.deep_view(),
                match mime_lines(dv.skip(li as int)) {
                    Ok(rest) => mime_lines(dv) == Ok::<_, MimeDbError>(acc.deep_view() + rest),
                    Err(e) => mime_lines(dv) == Err::<Seq<(Seq<char>, Seq<char>)>, MimeDbError>(e),
                },
            decreases lines.len() - li,
        {
            let ghost acc0 = acc.deep_view();
            let ghost hl = dv[li as int];
            let line: &String = &lines[li];
            proof {
                assert(line@ == hl);
                assert(dv.skip(li as int)[0] == hl);
                assert(dv.skip(li as int).skip(1) =~= dv.skip(li + 1));
            }
            let n = line.as_str().unicode_len();
            if n == 0 || line.as_str().get_char(0) == '#' {
                li = li + 1;
                continue ;
            }
            let a0 = text::find_non_space(line.as_str(), 0, n);
            if a0 == n {
                proof {
                    assert(tokens_from(hl, 0).len() == 0);
                }
                return Err(MimeDbError::Malformed);
            }
            let e0 = text::find_stop(line.as_str(), a0, n, ' ', true);
            let mime = text::copy_range(line.as_str(), a0, e0);
            let ghost ts = tokens_from(hl, 0);
            let ghost pending = keyed(mime@, tokens_from(hl, e0 as int));
            proof {
                assert(ts == seq![hl.subrange(a0 as int, e0 as int)] + tokens_from(hl, e0 as int));
                assert(ts.skip(1) =~~= tokens_from(hl, e0 as int));
                assert(mime@ == ts[0]);
                assert(keyed(ts[0], ts.skip(1)) == pending);
            }
            let mut j = e0;
            loop
                invariant_except_break
                    acc.deep_view() + keyed(mime@, tokens_from(hl, j as int)) =~~= acc0 + pending,
                invariant
                    a0 < n == hl.len(),
                    a0 <= j <= n,
                    line@ == hl,
                ensures
                    acc.deep_view() =~~= acc0 + pending,
                decreases n - j,
            {
                let ghost accb = acc.deep_view();
                let a = text::find_non_space(line.as_str(), j, n);
                if a == n {
                    proof {
                        assert(keyed(mime@, tokens_from(hl, j as int)) =~~= Seq::<
                            (Seq<char>, Seq<char>),
                        >::empty());
                        assert(accb + Seq::<(Seq<char>, Seq<char>)>::empty() =~~= accb);
                    }
                    break ;
                }
                let e = text::find_stop(line.as_str(), a, n, ' ', true);
                let kind = text::copy_range(line.as_str(), a, e);
                let ghost kv = kind@;
                acc.push((kind, mime.clone()));
                proof {
                    text::lemma_skip_spaces(hl, j as int);
                    text::lemma_scan_to(hl, a as int, ' ', true);
                    let tl = tokens_from(hl, j as int);
                    assert(tl == seq![hl.subrange(a as int, e as int)] + tokens_from(hl, e as int));
                    assert(tl[0] == kv && tl.skip(1) =~~= tokens_from(hl, e as int));
                    assert(acc.deep_view() =~~= accb + seq![(kv, mime@)]);
                    assert(keyed(mime@, tl) == seq![(kv, mime@)] + keyed(
                        mime@,
                        tokens_from(hl, e as int),
                    ));
                    assert(accb + keyed(mime@, tl) =~~= acc.deep_view() + keyed(
                        mime@,
                        tokens_from(hl, e as int),
                    ));
                }
                j = e;
            }
            li = li + 1;
            proof {
                let r1 = mime_lines(dv.skip(li as int));
                if r1 is Ok {
                    assert(mime_lines(dv.skip(li - 1)) == Ok::<_, MimeDbError>(
                        keyed(ts[0], ts.skip(1)) + r1.unwrap(),
                    ));
                    assert(acc0 + (pending + r1.unwrap()) =~~= acc.deep_view() + r1.unwrap());
                }
            }
        }
        proof {
            assert(dv.skip(lines.len() as int) =~= Seq::<Seq<char>>::empty());
            if mime_lines(dv) is Ok {
                assert(acc.deep_view() + Seq::<(Seq<char>, Seq<char>)>::empty()
                    =~~= acc.deep_view());
            }
        }
        Ok(MimeDb(acc))
    }

    /// The media type recorded for the extension of `file`, if the name
    /// has an extension and the table knows it.
    pub fn get(&self, file: &str) -> (r: Option<&str>)
        ensures
            match ext_of(file@) {
                None => r is None,
                Some(e) => {
                    if db_map(self.0@).contains_key(e) {
                        r matches Some(s) && s@ == db_map(self.0@)[e]
                    } else {
                        r is None
                    }
                },
            },
    {
        let n = file.unicode_len();
        let mut j = n;
        while j > 0 && file.get_char(j - 1) != '.'
            invariant
                j <= n == file@.len(),
                rfind(file@, n as int, '.') == rfind(file@, j as int, '.'),
            decreases j,
        {
            j = j - 1;
        }
        if j == 0 {
            proof {
                assert(rfind(file@, 0, '.') == -1);
            }
            return None;
        }
        let ext = file.substring_char(j, n);
        proof {
            assert(rfind(file@, j as int, '.') == j - 1);
            assert(ext_of(file@) == Some(ext@));
        }
        let m = self.0.len();
        let mut i = m;
        while i > 0
            invariant
                i <= m == self.0@.len(),
                ext@ == file@.subrange(j as int, n as int),
                ext_of(file@) == Some(ext@),
                forall|k: int| i <= k < m ==> self.0@[k].0@ != ext@,
            decreases i,
        {
            i = i - 1;
            let pair = &self.0[i];
            if text::str_eq(pair.0.as_str(), ext) {
                proof {
                    let entries = self.0@;
                    let t1 = entries.take(i + 1);
                    assert(t1.drop_last() =~= entries.take(i as int));
                    assert(t1.last() == entries[i as int]);
                    lemma_db_map_suffix(entries, ext@, i + 1);
                }
                return Some(pair.1.as_str());
            }
        }
        proof {
            lemma_db_map_suffix(self.0@, ext@, 0);
            assert(self.0@.take(0) =~= Seq::<(String, String)>::empty());
        }
        None
    }
}

} // verus!
