use vstd::prelude::*;

use crate::cell::{cell_at, cell_text, Cell};
use crate::error::{CsvError, Fault};
use crate::text::{crlf, join, join_strings, owned, texts};
use crate::names::NameSet;

verus! {

/// The section header that opens a credentials file.
pub open spec fn users_header() -> Seq<char> {
    seq!['[', 'u', 's', 'e', 'r', 's', ']']
}

/// A row that names a user; rows with an empty first cell are blank separators.
pub open spec fn names_user(row: Seq<Cell>) -> bool {
    cell_text(row, 0).len() > 0
}

/// A row that names a user but gives no password.
pub open spec fn lacks_password(row: Seq<Cell>) -> bool {
    names_user(row) && cell_text(row, 1).len() == 0
}

/// The `username=password` line of a row.
pub open spec fn user_line(row: Seq<Cell>) -> Seq<char> {
    cell_text(row, 0) + seq!['='] + cell_text(row, 1)
}

/// The lines of the rows that name a user, in row order.
pub open spec fn user_lines(rows: Seq<Vec<Cell>>) -> Seq<Seq<char>>
    decreases rows.len(),
{
    if rows.len() == 0 {
        Seq::empty()
    } else if names_user(rows.last()@) {
        user_lines(rows.drop_last()).push(user_line(rows.last()@))
    } else {
        user_lines(rows.drop_last())
    }
}

/// The credentials file that `rows` give.
pub open spec fn passwd_text(rows: Seq<Vec<Cell>>) -> Seq<char> {
    join(seq![users_header()] + user_lines(rows), crlf())
}

/// The usernames that `rows` name.
pub open spec fn passwd_users(rows: Seq<Vec<Cell>>) -> Set<Seq<char>> {
    Set::new(
        |u: Seq<char>|
            exists|i: int| 0 <= i < rows.len() && names_user(rows[i]@) && cell_text(rows[i]@, 0) == u,
    )
}

/// Row `i` is the first that names a user without a password.
pub open spec fn first_lacking(rows: Seq<Vec<Cell>>, i: int) -> bool {
    &&& 0 <= i < rows.len()
    &&& lacks_password(rows[i]@)
    &&& forall|j: int| 0 <= j < i ==> !lacks_password(#[trigger] rows[j]@)
}

/// What the credentials sheet gives: the fault of the first row without a
/// password, else the credentials file.
pub open spec fn passwd_result(rows: Seq<Vec<Cell>>) -> Result<Seq<char>, Fault> {
    if exists|i: int| 0 <= i < rows.len() && lacks_password(rows[i]@) {
        Err(Fault::UserEmptyPwd(cell_text(rows[choose|i: int| first_lacking(rows, i)]@, 0)))
    } else {
        Ok(passwd_text(rows))
    }
}

pub(crate) proof fn lemma_first_lacking_unique(rows: Seq<Vec<Cell>>, i: int)
    requires
        first_lacking(rows, i),
    ensures
        (choose|k: int| first_lacking(rows, k)) == i,
{
    let k = choose|k: int| first_lacking(rows, k);
    assert(first_lacking(rows, k));
    if k < i {
        assert(!lacks_password(rows[k]@));
    } else if k > i {
        assert(!lacks_password(rows[i]@));
    }
}

/// What the credentials sheet yields: the file's text and the users it defines.
pub struct Credentials {
    pub body: String,
    pub users: NameSet,
}

/// Turns the rows of the credentials sheet (username, password) into the text of
/// the credentials file and the set of usernames.
pub fn build_passwd(rows: &Vec<Vec<Cell>>) -> (r: Result<Credentials, CsvError>)
    ensures
        match r {
            Ok(c) => {
                &&& forall|i: int| 0 <= i < rows@.len() ==> !lacks_password(#[trigger] rows@[i]@)
                &&& c.body@ == passwd_text(rows@)
                &&& c.users@ == passwd_users(rows@)
                &&& passwd_result(rows@) == Ok::<Seq<char>, Fault>(c.body@)
            },
            Err(e) => {
                &&& exists|i: int| first_lacking(rows@, i) && e@ == Fault::UserEmptyPwd(cell_text(rows@[i]@, 0))
                &&& passwd_result(rows@) == Err::<Seq<char>, Fault>(e@)
            },
        },
{
    let mut lines: Vec<String> = Vec::new();
    let header = owned("[users]");
    proof {
        reveal_strlit("[users]");
    }
    assert(header@ =~= users_header());
    lines.push(header);
    let mut users = NameSet::new();
    let mut i: usize = 0;
    while i < rows.len()
        invariant
            i <= rows@.len(),
            forall|j: int| 0 <= j < i ==> !lacks_password(#[trigger] rows@[j]@),
            texts(lines@) =~= seq![users_header()] + user_lines(rows@.take(i as int)),
            users@ == passwd_users(rows@.take(i as int)),
        decreases rows.len() - i,
    {
        let ghost before = rows@.take(i as int);
        let ghost after = rows@.take(i + 1);
        assert(after.drop_last() =~= before);
        assert(after.last() == rows@[i as int]);
        let row = &rows[i];
        let name = cell_at(row, 0);
        let pwd = cell_at(row, 1);
        if name.as_str().is_empty() {
            assert(passwd_users(after) =~= passwd_users(before)) by {
                assert forall|u: Seq<char>| passwd_users(after).contains(u) implies passwd_users(before).contains(u) by {
                    let k = choose|k: int| 0 <= k < after.len() && names_user(after[k]@) && cell_text(after[k]@, 0) == u;
                    assert(before[k] == after[k]);
                }
                assert forall|u: Seq<char>| passwd_users(before).contains(u) implies passwd_users(after).contains(u) by {
                    let k = choose|k: int| 0 <= k < before.len() && names_user(before[k]@) && cell_text(before[k]@, 0) == u;
                    assert(before[k] == after[k]);
                }
            }
        } else {
            if pwd.as_str().is_empty() {
                assert(first_lacking(rows@, i as int));
                proof {
                    lemma_first_lacking_unique(rows@, i as int);
                }
                return Err(CsvError::UserEmptyPwd(name));
            }
            let mut line = name.clone();
            line.append("=");
            line.append(pwd.as_str());
            proof {
                reveal_strlit("=");
            }
            assert(line@ =~= user_line(rows@[i as int]@));
            let ghost old_lines = lines@;
            lines.push(line);
            assert(texts(lines@) =~= texts(old_lines).push(line@));
            let ghost n = name@;
            users.insert(name);
            assert(passwd_users(after) =~= passwd_users(before).insert(n)) by {
                assert forall|u: Seq<char>| passwd_users(after).contains(u) implies passwd_users(before).insert(n).contains(u) by {
                    let k = choose|k: int| 0 <= k < after.len() && names_user(after[k]@) && cell_text(after[k]@, 0) == u;
                    if k < i {
                        assert(before[k] == after[k]);
                    }
                }
                assert forall|u: Seq<char>| passwd_users(before).contains(u) implies passwd_users(after).contains(u) by {
                    let k = choose|k: int| 0 <= k < before.len() && names_user(before[k]@) && cell_text(before[k]@, 0) == u;
                    assert(before[k] == after[k]);
                }
                assert(after[i as int] == rows@[i as int]);
            }
        }
        i = i + 1;
    }
    assert(rows@.take(rows@.len() as int) =~= rows@);
    let body = join_strings(&lines, "\r\n");
    proof {
        reveal_strlit("\r\n");
    }
    assert("\r\n"@ =~= crlf());
    Ok(Credentials { body, users })
}

/// The lines of the first `m` rows come first among those of the first `n`.
proof fn lemma_user_lines_prefix(rows: Seq<Vec<Cell>>, m: int, n: int)
    requires
        0 <= m <= n <= rows.len(),
    ensures
        user_lines(rows.take(m)).len() <= user_lines(rows.take(n)).len(),
        user_lines(rows.take(m)) == user_lines(rows.take(n)).take(user_lines(rows.take(m)).len() as int),
    decreases n - m,
{
    if m < n {
        lemma_user_lines_prefix(rows, m, n - 1);
        assert(rows.take(n).drop_last() =~= rows.take(n - 1));
    } else {
        assert(user_lines(rows.take(n)).take(user_lines(rows.take(n)).len() as int) =~= user_lines(rows.take(n)));
    }
}

/// Every row that names a user with a password gives its `username=password`
/// line, and the lines keep the order of the rows: row `i` gives the line at
/// the position that counts the lines of the rows before it. Its username is
/// among the defined users.
pub proof fn law_users_listed_in_order(rows: Seq<Vec<Cell>>, i: int, k: int)
    requires
        0 <= i < k < rows.len(),
        names_user(rows[i]@),
        names_user(rows[k]@),
    ensures
        user_lines(rows)[user_lines(rows.take(i)).len() as int] == user_line(rows[i]@),
        user_lines(rows)[user_lines(rows.take(k)).len() as int] == user_line(rows[k]@),
        user_lines(rows.take(i)).len() < user_lines(rows.take(k)).len(),
        passwd_users(rows).contains(cell_text(rows[i]@, 0)),
        passwd_users(rows).contains(cell_text(rows[k]@, 0)),
{
    assert(rows.take(rows.len() as int) =~= rows);
    lemma_user_line_at(rows, i);
    lemma_user_line_at(rows, k);
    lemma_user_lines_prefix(rows, i + 1, k);
    assert(rows.take(i + 1).drop_last() =~= rows.take(i));
}

proof fn lemma_user_line_at(rows: Seq<Vec<Cell>>, i: int)
    requires
        0 <= i < rows.len(),
        names_user(rows[i]@),
    ensures
        user_lines(rows)[user_lines(rows.take(i)).len() as int] == user_line(rows[i]@),
{
    assert(rows.take(rows.len() as int) =~= rows);
    assert(rows.take(i + 1).drop_last() =~= rows.take(i));
    assert(rows.take(i + 1).last() == rows[i]);
    lemma_user_lines_prefix(rows, i + 1, rows.len() as int);
    let pos = user_lines(rows.take(i)).len() as int;
    assert(user_lines(rows.take(i + 1))[pos] == user_line(rows[i]@));
    assert(user_lines(rows)[pos] == user_lines(rows).take(pos + 1)[pos]);
}

} // verus!
