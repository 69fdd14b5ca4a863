//! The text the prepared full-text index is queried with: target identifiers, literal AND
//! queries over search tokens, and the checks on a request before it reaches the index.
use vstd::prelude::*;
use vstd::string::*;

use crate::publication::PreparedServingError;
use crate::target::TermCampusKey;

verus! {

/// The index's identifier of a target: its term, a slash, and its campus.
pub open spec fn spec_fts_target_id(term: Seq<char>, campus: Seq<char>) -> Seq<char> {
    term + seq!['/'] + campus
}

/// The index's identifier of a target.
pub fn fts_target_id(target: &TermCampusKey) -> (res: String)
    ensures
        res@ == spec_fts_target_id(target.spec_term(), target.spec_campus()),
{
    let mut id = target.term().to_string();
    id.append("/");
    id.append(target.campus());
    proof {
        reveal_strlit("/");
        assert(id@ =~= spec_fts_target_id(target.spec_term(), target.spec_campus()));
    }
    id
}

/// `s` with every double quote doubled.
pub open spec fn escape_quotes(s: Seq<char>) -> Seq<char>
    decreases s.len(),
{
    if s.len() == 0 {
        Seq::empty()
    } else if s.last() == '"' {
        escape_quotes(s.drop_last()) + seq!['"', '"']
    } else {
        escape_quotes(s.drop_last()).push(s.last())
    }
}

/// One token as a quoted FTS5 string literal.
pub open spec fn fts_literal(token: Seq<char>) -> Seq<char> {
    seq!['"'] + escape_quotes(token) + seq!['"']
}

/// The literals of the tokens joined by ` AND `.
pub open spec fn fts_and_query(tokens: Seq<Seq<char>>) -> Seq<char>
    decreases tokens.len(),
{
    if tokens.len() == 0 {
        Seq::empty()
    } else if tokens.len() == 1 {
        fts_literal(tokens[0])
    } else {
        fts_and_query(tokens.drop_last()) + " AND "@ + fts_literal(tokens.last())
    }
}

/// The text of a list of strings.
pub open spec fn texts(tokens: Seq<String>) -> Seq<Seq<char>> {
    tokens.map_values(|t: String| t@)
}

/// Appends `token` as a quoted literal, doubling its quotes.
fn push_literal(out: &mut String, token: &str)
    ensures
        final(out)@ == old(out)@ + fts_literal(token@),
{
    let quote = "\"";
    let doubled = "\"\"";
    proof {
        reveal_strlit("\"");
        reveal_strlit("\"\"");
    }
    out.append(quote);
    let ghost start = out@;
    let n = token.unicode_len();
    let mut i: usize = 0;
    while i < n
        invariant
            n == token@.len(),
            i <= n,
            quote@ == seq!['"'],
            doubled@ == seq!['"', '"'],
            out@ == start + escape_quotes(token@.subrange(0, i as int)),
        decreases n - i,
    {
        let c = token.get_char(i);
        proof {
            let sub = token@.subrange(0, i + 1);
            assert(sub.drop_last() =~= token@.subrange(0, i as int));
            assert(sub.last() == c);
        }
        if c == '"' {
            out.append(doubled);
        } else {
            out.append(token.substring_char(i, i + 1));
        }
        i = i + 1;
    }
    out.append(quote);
    proof {
        assert(token@.subrange(0, n as int) =~= token@);
        assert(out@ =~= old(out)@ + fts_literal(token@));
    }
}

/// The FTS5 query that matches every token literally: each token quoted, its quotes
/// doubled, and the literals joined by ` AND `.
pub fn fts5_literal_and_query(tokens: &Vec<String>) -> (res: String)
    ensures
        res@ == fts_and_query(texts(tokens@)),
{
    let mut out = String::new();
    let mut i: usize = 0;
    while i < tokens.len()
        invariant
            i <= tokens@.len(),
            out@ == fts_and_query(texts(tokens@.subrange(0, i as int))),
        decreases tokens.len() - i,
    {
        let ghost prefix = texts(tokens@.subrange(0, i as int));
        let ghost next = texts(tokens@.subrange(0, i + 1));
        proof {
            assert(next.drop_last() =~= prefix);
            assert(next.last() == tokens@[i as int]@);
        }
        if i > 0 {
            out.append(" AND ");
        }
        push_literal(&mut out, tokens[i].as_str());
        proof {
            reveal_strlit(" AND ");
            assert(next.len() == i + 1);
            if i == 0 {
                assert(prefix.len() == 0);
                assert(out@ =~= fts_and_query(next));
            } else {
                assert(fts_and_query(next) == fts_and_query(prefix) + " AND "@ + fts_literal(
                    tokens@[i as int]@,
                ));
                assert(out@ =~= fts_and_query(next));
            }
        }
        i = i + 1;
    }
    proof {
        assert(tokens@.subrange(0, tokens@.len() as int) =~= tokens@);
    }
    out
}

/// A search needs a published content version.
pub fn check_fts_search(content_version: u64) -> (res: Result<(), PreparedServingError>)
    ensures
        res == (if content_version == 0 {
            Err(PreparedServingError::InvalidFtsInput { field: "content_version" })
        } else {
            Ok(())
        }),
{
    if content_version == 0 {
        Err(PreparedServingError::InvalidFtsInput { field: "content_version" })
    } else {
        Ok(())
    }
}

/// Listing terms needs a published content version and room for at least one term.
pub fn check_fts_terms(content_version: u64, limit: usize) -> (res: Result<(), PreparedServingError>)
    ensures
        res == (if content_version == 0 || limit == 0 {
            Err(PreparedServingError::InvalidFtsInput { field: "filter_options" })
        } else {
            Ok(())
        }),
{
    if content_version == 0 || limit == 0 {
        Err(PreparedServingError::InvalidFtsInput { field: "filter_options" })
    } else {
        Ok(())
    }
}

/// Reading a target's whole term set needs a published content version.
pub fn check_fts_term_set(content_version: u64) -> (res: Result<(), PreparedServingError>)
    ensures
        res == (if content_version == 0 {
            Err(PreparedServingError::InvalidFtsInput { field: "filter_options" })
        } else {
            Ok(())
        }),
{
    if content_version == 0 {
        Err(PreparedServingError::InvalidFtsInput { field: "filter_options" })
    } else {
        Ok(())
    }
}

/// Looking a term up needs a published content version and a term.
pub fn check_fts_term_exists(content_version: u64, term: &str) -> (res: Result<(), PreparedServingError>)
    ensures
        res == (if content_version == 0 || term@.len() == 0 {
            Err(PreparedServingError::InvalidFtsInput { field: "dynamic_filter_validation" })
        } else {
            Ok(())
        }),
{
    if content_version == 0 || term.unicode_len() == 0 {
        Err(PreparedServingError::InvalidFtsInput { field: "dynamic_filter_validation" })
    } else {
        Ok(())
    }
}

} // verus!
