use vstd::prelude::*;
use vstd::string::*;

use crate::cell::{cell_at, cell_text, Cell};
use crate::error::{CsvError, Fault};
use crate::text::{crlf, join, join_strings, owned, remove_char, texts, without};
use crate::names::NameSet;

verus! {

/// The header row of a sheet: its first row, or nothing for a sheet without rows.
pub open spec fn header(rows: Seq<Vec<Cell>>) -> Seq<Cell> {
    if rows.len() > 0 {
        rows[0]@
    } else {
        Seq::empty()
    }
}

/// Column `c` of the header names a group.
pub open spec fn is_group_col(h: Seq<Cell>, c: int) -> bool {
    cell_text(h, c).len() > 0
}

/// Column `j` of the header repeats the group name of a column to its left.
pub open spec fn repeats_name(h: Seq<Cell>, j: int) -> bool {
    &&& is_group_col(h, j)
    &&& exists|k: int| 0 <= k < j && is_group_col(h, k) && cell_text(h, k) == cell_text(h, j)
}

/// Column `j` is the first that repeats a group name.
pub open spec fn first_repeat(h: Seq<Cell>, j: int) -> bool {
    &&& 0 <= j < h.len()
    &&& repeats_name(h, j)
    &&& forall|k: int| 0 <= k < j ==> !repeats_name(h, k)
}

/// No group name repeats in the header.
pub open spec fn names_distinct(h: Seq<Cell>) -> bool {
    forall|j: int| 0 <= j < h.len() ==> !repeats_name(h, j)
}

/// The first cell of row `r`, which says what kind of row it is.
pub open spec fn row_key(rows: Seq<Vec<Cell>>, r: int) -> Seq<char> {
    cell_text(rows[r]@, 0)
}

/// A key that opens a rule row: a path, which starts with `/`.
pub open spec fn is_rule_key(key: Seq<char>) -> bool {
    key.len() > 0 && key[0] == '/'
}

/// A key that opens a user-assignment row: a username.
pub open spec fn is_user_key(key: Seq<char>) -> bool {
    key.len() > 0 && key[0] != '/'
}

/// The two permission levels a rule may grant: `r` and `rw`.
pub open spec fn is_perm(v: Seq<char>) -> bool {
    v == seq!['r'] || v == seq!['r', 'w']
}

/// Column `c` of a rule row, a group column of header `h`, holds something
/// other than a permission level.
pub open spec fn bad_perm(h: Seq<Cell>, row: Seq<Cell>, c: int) -> bool {
    &&& 1 <= c < row.len()
    &&& is_group_col(h, c)
    &&& cell_text(row, c).len() > 0
    &&& !is_perm(cell_text(row, c))
}

/// Column `c` is the first of the row with a bad permission.
pub open spec fn first_bad_perm(h: Seq<Cell>, row: Seq<Cell>, c: int) -> bool {
    bad_perm(h, row, c) && forall|k: int| 0 <= k < c ==> !bad_perm(h, row, k)
}

/// Some data row before row `r` assigns the same user as row `r`.
pub open spec fn assigned_before(rows: Seq<Vec<Cell>>, r: int) -> bool {
    exists|q: int| 1 <= q < r && is_user_key(row_key(rows, q)) && row_key(rows, q) == row_key(rows, r)
}

/// The users that data rows before row `r` assign.
pub open spec fn assigned_users(rows: Seq<Vec<Cell>>, r: int) -> Set<Seq<char>> {
    Set::new(|u: Seq<char>| exists|q: int| 1 <= q < r && is_user_key(row_key(rows, q)) && row_key(rows, q) == u)
}

/// What is wrong with data row `r`, if anything, given the defined users.
pub open spec fn row_fault(rows: Seq<Vec<Cell>>, users: Set<Seq<char>>, r: int) -> Option<Fault> {
    let key = row_key(rows, r);
    if is_user_key(key) {
        if !users.contains(key) {
            Some(Fault::UserNotExist(key))
        } else if assigned_before(rows, r) {
            Some(Fault::UserDupAuth(key))
        } else {
            None
        }
    } else if is_rule_key(key) && exists|c: int| bad_perm(header(rows), rows[r]@, c) {
        let c = choose|c: int| first_bad_perm(header(rows), rows[r]@, c);
        Some(Fault::InvalidAuth(cell_text(rows[r]@, c)))
    } else {
        None
    }
}

/// Row `r` is the first data row with a fault.
pub open spec fn first_faulty_row(rows: Seq<Vec<Cell>>, users: Set<Seq<char>>, r: int) -> bool {
    &&& 1 <= r < rows.len()
    &&& row_fault(rows, users, r) is Some
    &&& forall|q: int| 1 <= q < r ==> row_fault(rows, users, q) is None
}

/// No data row has a fault.
pub open spec fn rows_sound(rows: Seq<Vec<Cell>>, users: Set<Seq<char>>) -> bool {
    forall|r: int| 1 <= r < rows.len() ==> row_fault(rows, users, r) is None
}

/// The group names of the header columns left of `c`.
pub open spec fn names_before(h: Seq<Cell>, c: int) -> Set<Seq<char>> {
    Set::new(|u: Seq<char>| exists|k: int| 0 <= k < c && is_group_col(h, k) && cell_text(h, k) == u)
}

/// Whether `t` is a permission level.
fn perm_ok(t: &String) -> (r: bool)
    ensures
        r == is_perm(t@),
{
    let n = t.as_str().unicode_len();
    if n == 1 {
        let r = t.as_str().get_char(0) == 'r';
        assert(r ==> t@ =~= seq!['r']);
        r
    } else if n == 2 {
        let r = t.as_str().get_char(0) == 'r' && t.as_str().get_char(1) == 'w';
        assert(r ==> t@ =~= seq!['r', 'w']);
        assert(t@ == seq!['r', 'w'] ==> t@[0] == 'r' && t@[1] == 'w');
        r
    } else {
        false
    }
}

/// Whether a non-empty key starts with `/`.
fn starts_with_slash(key: &String) -> (r: bool)
    requires
        key@.len() > 0,
    ensures
        r == (key@[0] == '/'),
{
    key.as_str().get_char(0) == '/'
}

/// Checks the header for a repeated group name; the first repeat is reported.
pub fn check_header(h: &Vec<Cell>) -> (r: Result<(), CsvError>)
    ensures
        match r {
            Ok(()) => names_distinct(h@),
            Err(e) => exists|j: int| first_repeat(h@, j) && e@ == Fault::GroupNameDup(cell_text(h@, j)),
        },
{
    let mut names = NameSet::new();
    let mut c: usize = 0;
    assert(names@ =~= names_before(h@, 0));
    while c < h.len()
        invariant
            c <= h@.len(),
            forall|j: int| 0 <= j < c ==> !repeats_name(h@, j),
            names@ == names_before(h@, c as int),
        decreases h.len() - c,
    {
        let t = cell_at(h, c);
        if !t.as_str().is_empty() {
            if names.contains(&t) {
                let ghost k = choose|k: int| 0 <= k < c && is_group_col(h@, k) && cell_text(h@, k) == t@;
                assert(repeats_name(h@, c as int));
                assert(first_repeat(h@, c as int));
                return Err(CsvError::GroupNameDup(t));
            }
            assert(!repeats_name(h@, c as int));
            let ghost n = t@;
            names.insert(t);
            assert(names@ =~= names_before(h@, c + 1)) by {
                assert forall|u: Seq<char>| names_before(h@, c + 1).contains(u) implies names_before(h@, c as int).insert(n).contains(u) by {
                    let k = choose|k: int| 0 <= k < c + 1 && is_group_col(h@, k) && cell_text(h@, k) == u;
                    if k < c {
                        assert(names_before(h@, c as int).contains(u));
                    }
                }
                assert forall|u: Seq<char>| names_before(h@, c as int).insert(n).contains(u) implies names_before(h@, c + 1).contains(u) by {
                    if u != n {
                        let k = choose|k: int| 0 <= k < c && is_group_col(h@, k) && cell_text(h@, k) == u;
                    } else {
                        assert(is_group_col(h@, c as int) && cell_text(h@, c as int) == u);
                    }
                }
            }
        } else {
            assert(names_before(h@, c + 1) =~= names_before(h@, c as int)) by {
                assert forall|u: Seq<char>| names_before(h@, c + 1).contains(u) implies names_before(h@, c as int).contains(u) by {
                    let k = choose|k: int| 0 <= k < c + 1 && is_group_col(h@, k) && cell_text(h@, k) == u;
                }
            }
        }
        c = c + 1;
    }
    Ok(())
}

/// The first group column of a rule row that holds something other than a
/// permission level.
fn first_bad_cell(h: &Vec<Cell>, row: &Vec<Cell>) -> (r: Option<usize>)
    ensures
        match r {
            Some(c) => first_bad_perm(h@, row@, c as int),
            None => forall|c: int| !bad_perm(h@, row@, c),
        },
{
    let mut c: usize = 1;
    while c < row.len()
        invariant
            1 <= c,
            forall|k: int| 0 <= k < c ==> !bad_perm(h@, row@, k),
        decreases row.len() - c,
    {
        let t = cell_at(row, c);
        let g = cell_at(h, c);
        if !g.as_str().is_empty() && !t.as_str().is_empty() && !perm_ok(&t) {
            return Some(c);
        }
        c = c + 1;
    }
    None
}

/// The first column with a bad permission is unique.
proof fn lemma_first_bad_unique(h: Seq<Cell>, row: Seq<Cell>, c: int)
    requires
        first_bad_perm(h, row, c),
    ensures
        (choose|k: int| first_bad_perm(h, row, k)) == c,
{
    let k = choose|k: int| first_bad_perm(h, row, k);
    assert(first_bad_perm(h, row, k));
    if k < c {
        assert(!bad_perm(h, row, k));
    } else if k > c {
        assert(!bad_perm(h, row, c));
    }
}

/// Checks the data rows of a sheet against the defined users; the first faulty
/// row is reported.
pub fn check_rows(rows: &Vec<Vec<Cell>>, users: &NameSet) -> (r: Result<(), CsvError>)
    ensures
        match r {
            Ok(()) => rows_sound(rows@, users@),
            Err(e) => exists|q: int|
                first_faulty_row(rows@, users@, q) && Some(e@) == row_fault(rows@, users@, q),
        },
{
    let mut seen = NameSet::new();
    let mut r: usize = 1;
    assert(seen@ =~= assigned_users(rows@, 1));
    while r < rows.len()
        invariant
            1 <= r,
            r <= rows@.len() || rows@.len() == 0,
            forall|q: int| 1 <= q < r ==> row_fault(rows@, users@, q) is None,
            seen@ == assigned_users(rows@, r as int),
        decreases rows.len() - r,
    {
        let row = &rows[r];
        let key = cell_at(row, 0);
        let ghost rr = r as int;
        if key.as_str().is_empty() {
            assert(assigned_users(rows@, rr + 1) =~= assigned_users(rows@, rr)) by {
                assert forall|u: Seq<char>| assigned_users(rows@, rr + 1).contains(u) implies assigned_users(rows@, rr).contains(u) by {
                    let q = choose|q: int| 1 <= q < rr + 1 && is_user_key(row_key(rows@, q)) && row_key(rows@, q) == u;
                }
            }
        } else if starts_with_slash(&key) {
            match first_bad_cell(&rows[0], row) {
                Some(c) => {
                    proof {
                        lemma_first_bad_unique(header(rows@), rows@[rr]@, c as int);
                    }
                    let t = cell_at(row, c);
                    assert(first_faulty_row(rows@, users@, rr));
                    return Err(CsvError::InvalidAuth(t));
                },
                None => {},
            }
            assert(assigned_users(rows@, rr + 1) =~= assigned_users(rows@, rr)) by {
                assert forall|u: Seq<char>| assigned_users(rows@, rr + 1).contains(u) implies assigned_users(rows@, rr).contains(u) by {
                    let q = choose|q: int| 1 <= q < rr + 1 && is_user_key(row_key(rows@, q)) && row_key(rows@, q) == u;
                }
            }
        } else {
            if !users.contains(&key) {
                assert(first_faulty_row(rows@, users@, rr));
                return Err(CsvError::UserNotExist(key));
            }
            if seen.contains(&key) {
                let ghost q = choose|q: int| 1 <= q < rr && is_user_key(row_key(rows@, q)) && row_key(rows@, q) == key@;
                assert(assigned_before(rows@, rr));
                assert(first_faulty_row(rows@, users@, rr));
                return Err(CsvError::UserDupAuth(key));
            }
            assert(!assigned_before(rows@, rr)) by {
                if assigned_before(rows@, rr) {
                    let q = choose|q: int| 1 <= q < rr && is_user_key(row_key(rows@, q)) && row_key(rows@, q) == row_key(rows@, rr);
                    assert(assigned_users(rows@, rr).contains(key@));
                }
            }
            let ghost n = key@;
            seen.insert(key);
            assert(seen@ =~= assigned_users(rows@, rr + 1)) by {
                assert forall|u: Seq<char>| assigned_users(rows@, rr + 1).contains(u) implies assigned_users(rows@, rr).insert(n).contains(u) by {
                    let q = choose|q: int| 1 <= q < rr + 1 && is_user_key(row_key(rows@, q)) && row_key(rows@, q) == u;
                    if q < rr {
                        assert(assigned_users(rows@, rr).contains(u));
                    }
                }
                assert forall|u: Seq<char>| assigned_users(rows@, rr).insert(n).contains(u) implies assigned_users(rows@, rr + 1).contains(u) by {
                    if u != n {
                        let q = choose|q: int| 1 <= q < rr && is_user_key(row_key(rows@, q)) && row_key(rows@, q) == u;
                    } else {
                        assert(is_user_key(row_key(rows@, rr)) && row_key(rows@, rr) == u);
                    }
                }
            }
        }
        r = r + 1;
    }
    Ok(())
}

/// The section header that opens an authorization file.
pub open spec fn groups_header() -> Seq<char> {
    seq!['[', 'g', 'r', 'o', 'u', 'p', 's', ']']
}

/// The header columns left of `n` that name a group, left to right.
pub open spec fn group_cols(h: Seq<Cell>, n: int) -> Seq<int>
    decreases n,
{
    if n <= 0 {
        Seq::empty()
    } else if is_group_col(h, n - 1) {
        group_cols(h, n - 1).push(n - 1)
    } else {
        group_cols(h, n - 1)
    }
}

/// The users that data rows before row `n` assign to the group of column `c`,
/// in row order.
pub open spec fn members(rows: Seq<Vec<Cell>>, c: int, n: int) -> Seq<Seq<char>>
    decreases n,
{
    if n <= 1 {
        Seq::empty()
    } else if is_user_key(row_key(rows, n - 1)) && c >= 1 && cell_text(rows[n - 1]@, c).len() > 0 {
        members(rows, c, n - 1).push(row_key(rows, n - 1))
    } else {
        members(rows, c, n - 1)
    }
}

/// The `[groups]` line of the group of column `c`: its name without `@`, and its
/// members joined by commas.
pub open spec fn group_line(rows: Seq<Vec<Cell>>, c: int) -> Seq<char> {
    without(cell_text(header(rows), c), '@') + seq!['='] + join(members(rows, c, rows.len() as int), seq![','])
}

/// One line per group, in header column order.
pub open spec fn group_lines(rows: Seq<Vec<Cell>>) -> Seq<Seq<char>> {
    group_cols(header(rows), header(rows).len() as int).map_values(|c: int| group_line(rows, c))
}

/// The `group=permission` lines of the columns of a rule row left of `n`.
pub open spec fn grant_lines(h: Seq<Cell>, row: Seq<Cell>, n: int) -> Seq<Seq<char>>
    decreases n,
{
    if n <= 1 {
        Seq::empty()
    } else if cell_text(row, n - 1).len() > 0 && is_group_col(h, n - 1) {
        grant_lines(h, row, n - 1).push(cell_text(h, n - 1) + seq!['='] + cell_text(row, n - 1))
    } else {
        grant_lines(h, row, n - 1)
    }
}

/// The block of a rule row: the path in brackets, the default-deny line, the
/// grants, and a blank line.
pub open spec fn rule_block(h: Seq<Cell>, row: Seq<Cell>) -> Seq<Seq<char>> {
    seq![seq!['['] + cell_text(row, 0) + seq![']'], seq!['*', '=']] + grant_lines(h, row, row.len() as int)
        + seq![crlf()]
}

/// The blocks of the rule rows before row `n`, in row order.
pub open spec fn rule_items(rows: Seq<Vec<Cell>>, n: int) -> Seq<Seq<char>>
    decreases n,
{
    if n <= 1 {
        Seq::empty()
    } else if is_rule_key(row_key(rows, n - 1)) {
        rule_items(rows, n - 1) + rule_block(header(rows), rows[n - 1]@)
    } else {
        rule_items(rows, n - 1)
    }
}

/// The authorization file that a sound sheet gives.
pub open spec fn authz_text(rows: Seq<Vec<Cell>>) -> Seq<char> {
    join(seq![groups_header()] + group_lines(rows) + seq![crlf()], crlf()) + join(
        rule_items(rows, rows.len() as int),
        crlf(),
    )
}

/// The users that the sheet assigns to the group of column `c`.
fn member_list(rows: &Vec<Vec<Cell>>, c: usize) -> (r: Vec<String>)
    ensures
        texts(r@) == members(rows@, c as int, rows@.len() as int),
{
    let mut r: Vec<String> = Vec::new();
    let mut n: usize = 1;
    while n < rows.len()
        invariant
            1 <= n,
            n <= rows@.len() || n == 1,
            texts(r@) == members(rows@, c as int, n as int),
        decreases rows.len() - n,
    {
        let row = &rows[n];
        let key = cell_at(row, 0);
        assert(key@ == row_key(rows@, n as int));
        let ghost before = r@;
        if !key.as_str().is_empty() && !starts_with_slash(&key) && c >= 1 {
            let t = cell_at(row, c);
            if !t.as_str().is_empty() {
                r.push(key);
                assert(texts(r@) =~= texts(before).push(r@.last()@));
                assert(texts(r@) == members(rows@, c as int, n + 1));
            } else {
                assert(texts(r@) == members(rows@, c as int, n + 1));
            }
        } else {
            assert(texts(r@) == members(rows@, c as int, n + 1));
        }
        n = n + 1;
    }
    if rows.len() == 0 {
        assert(members(rows@, c as int, 0) == members(rows@, c as int, 1));
    }
    r
}

/// The `[groups]` lines of a sheet, in header column order.
fn group_lines_of(rows: &Vec<Vec<Cell>>) -> (r: Vec<String>)
    ensures
        texts(r@) == group_lines(rows@),
{
    let mut r: Vec<String> = Vec::new();
    if rows.len() == 0 {
        assert(texts(r@) =~= group_lines(rows@));
        return r;
    }
    let h = &rows[0];
    let mut c: usize = 0;
    while c < h.len()
        invariant
            c <= h@.len(),
            h@ == header(rows@),
            texts(r@) =~= group_cols(h@, c as int).map_values(|k: int| group_line(rows@, k)),
        decreases h.len() - c,
    {
        let name = cell_at(h, c);
        if !name.as_str().is_empty() {
            proof {
                reveal_strlit("=");
                reveal_strlit(",");
            }
            assert("="@ =~= seq!['=']);
            assert(","@ =~= seq![',']);
            let mut line = remove_char(name.as_str(), '@');
            line.append("=");
            let list = member_list(rows, c);
            let joined = join_strings(&list, ",");
            line.append(joined.as_str());
            assert(line@ == group_line(rows@, c as int));
            let ghost before = r@;
            r.push(line);
            assert(texts(r@) =~= texts(before).push(r@.last()@));
        }
        c = c + 1;
    }
    r
}

/// The grant lines of a rule row, given the header.
fn grants_of(h: &Vec<Cell>, row: &Vec<Cell>, out: &mut Vec<String>)
    ensures
        texts(final(out)@) == texts(old(out)@) + grant_lines(h@, row@, row@.len() as int),
{
    let ghost start = texts(out@);
    let mut c: usize = 1;
    while c < row.len()
        invariant
            1 <= c,
            c <= row@.len() || c == 1,
            texts(out@) =~= start + grant_lines(h@, row@, c as int),
        decreases row.len() - c,
    {
        let v = cell_at(row, c);
        let g = cell_at(h, c);
        if !v.as_str().is_empty() && !g.as_str().is_empty() {
            proof {
                reveal_strlit("=");
            }
            assert("="@ =~= seq!['=']);
            let mut line = g;
            line.append("=");
            line.append(v.as_str());
            let ghost before = out@;
            out.push(line);
            assert(texts(out@) =~= texts(before).push(out@.last()@));
        }
        c = c + 1;
    }
    if row.len() == 0 {
        assert(grant_lines(h@, row@, 0) == grant_lines(h@, row@, 1));
    }
}

/// The blocks of the rule rows of a sheet, in row order.
fn rule_items_of(rows: &Vec<Vec<Cell>>) -> (r: Vec<String>)
    ensures
        texts(r@) == rule_items(rows@, rows@.len() as int),
{
    let mut r: Vec<String> = Vec::new();
    let mut n: usize = 1;
    while n < rows.len()
        invariant
            1 <= n,
            n <= rows@.len() || n == 1,
            texts(r@) =~= rule_items(rows@, n as int),
        decreases rows.len() - n,
    {
        let row = &rows[n];
        let key = cell_at(row, 0);
        if !key.as_str().is_empty() && starts_with_slash(&key) {
            let ghost before = texts(r@);
            proof {
                reveal_strlit("[");
                reveal_strlit("]");
                reveal_strlit("*=");
                reveal_strlit("\r\n");
            }
            assert("["@ =~= seq!['[']);
            assert("]"@ =~= seq![']']);
            assert("*="@ =~= seq!['*', '=']);
            assert("\r\n"@ =~= crlf());
            let mut path = owned("[");
            path.append(key.as_str());
            path.append("]");
            let ghost opening = seq![seq!['['] + key@ + seq![']'], seq!['*', '=']];
            r.push(path);
            assert(texts(r@) =~= before.push(opening[0]));
            r.push(owned("*="));
            assert(texts(r@) =~= before + opening);
            let ghost mid = texts(r@);
            grants_of(&rows[0], row, &mut r);
            let ghost grants = grant_lines(header(rows@), rows@[n as int]@, rows@[n as int]@.len() as int);
            assert(texts(r@) == mid + grants);
            let ghost with_grants = r@;
            r.push(owned("\r\n"));
            assert(texts(r@) =~= texts(with_grants).push(crlf()));
            assert(texts(r@) =~= before + rule_block(header(rows@), rows@[n as int]@));
        }
        n = n + 1;
    }
    if rows.len() == 0 {
        assert(rule_items(rows@, 0) == rule_items(rows@, 1));
    }
    r
}

/// What a group sheet gives: the first repeated group name in the header, else
/// the fault of the first faulty data row, else the authorization file.
pub open spec fn authz_result(rows: Seq<Vec<Cell>>, users: Set<Seq<char>>) -> Result<Seq<char>, Fault> {
    let h = header(rows);
    if exists|j: int| 0 <= j < h.len() && repeats_name(h, j) {
        Err(Fault::GroupNameDup(cell_text(h, choose|j: int| first_repeat(h, j))))
    } else if exists|q: int| 1 <= q < rows.len() && row_fault(rows, users, q) is Some {
        Err(row_fault(rows, users, choose|q: int| first_faulty_row(rows, users, q))->0)
    } else {
        Ok(authz_text(rows))
    }
}

proof fn lemma_first_repeat_unique(h: Seq<Cell>, j: int)
    requires
        first_repeat(h, j),
    ensures
        (choose|k: int| first_repeat(h, k)) == j,
{
    let k = choose|k: int| first_repeat(h, k);
    assert(first_repeat(h, k));
    if k < j {
        assert(!repeats_name(h, k));
    } else if k > j {
        assert(!repeats_name(h, j));
    }
}

proof fn lemma_first_faulty_unique(rows: Seq<Vec<Cell>>, users: Set<Seq<char>>, q: int)
    requires
        first_faulty_row(rows, users, q),
    ensures
        (choose|k: int| first_faulty_row(rows, users, k)) == q,
{
    let k = choose|k: int| first_faulty_row(rows, users, k);
    assert(first_faulty_row(rows, users, k));
    if k < q {
        assert(row_fault(rows, users, k) is None);
    } else if k > q {
        assert(row_fault(rows, users, q) is None);
    }
}

/// Builds the authorization file of a group sheet, checked against the defined
/// users. Fails with the first repeated group name of the header, else with the
/// fault of the first faulty data row.
pub fn build_authz(rows: &Vec<Vec<Cell>>, users: &NameSet) -> (r: Result<String, CsvError>)
    ensures
        match r {
            Ok(body) => {
                &&& names_distinct(header(rows@))
                &&& rows_sound(rows@, users@)
                &&& body@ == authz_text(rows@)
                &&& authz_result(rows@, users@) == Ok::<Seq<char>, Fault>(body@)
            },
            Err(e) => authz_result(rows@, users@) == Err::<Seq<char>, Fault>(e@),
        },
{
    if rows.len() > 0 {
        match check_header(&rows[0]) {
            Ok(()) => {},
            Err(e) => {
                proof {
                    let j = choose|j: int| first_repeat(header(rows@), j) && e@ == Fault::GroupNameDup(cell_text(header(rows@), j));
                    lemma_first_repeat_unique(header(rows@), j);
                }
                return Err(e);
            },
        }
    }
    assert(names_distinct(header(rows@)));
    match check_rows(rows, users) {
        Ok(()) => {},
        Err(e) => {
            proof {
                let q = choose|q: int| first_faulty_row(rows@, users@, q) && Some(e@) == row_fault(rows@, users@, q);
                lemma_first_faulty_unique(rows@, users@, q);
            }
            return Err(e);
        },
    }
    proof {
        reveal_strlit("[groups]");
        reveal_strlit("\r\n");
    }
    assert("[groups]"@ =~= groups_header());
    assert("\r\n"@ =~= crlf());
    let mut head: Vec<String> = Vec::new();
    head.push(owned("[groups]"));
    let mut groups = group_lines_of(rows);
    let ghost group_texts = texts(groups@);
    head.append(&mut groups);
    head.push(owned("\r\n"));
    assert(texts(head@) =~= seq![groups_header()] + group_texts + seq![crlf()]);
    let mut body = join_strings(&head, "\r\n");
    let rules = rule_items_of(rows);
    let tail = join_strings(&rules, "\r\n");
    body.append(tail.as_str());
    Ok(body)
}

/// The group columns before `n` are the group columns left of `n`, each once,
/// left to right.
proof fn lemma_group_cols(h: Seq<Cell>, n: int)
    requires
        0 <= n,
    ensures
        forall|m: int| 0 <= m < group_cols(h, n).len() ==> 0 <= #[trigger] group_cols(h, n)[m] < n && is_group_col(h, group_cols(h, n)[m]),
        forall|a: int, b: int| 0 <= a < b < group_cols(h, n).len() ==> #[trigger] group_cols(h, n)[a] < #[trigger] group_cols(h, n)[b],
        forall|c: int| 0 <= c < n && is_group_col(h, c) ==> #[trigger] group_cols(h, n).contains(c),
    decreases n,
{
    if n > 0 {
        lemma_group_cols(h, n - 1);
        let prev = group_cols(h, n - 1);
        if is_group_col(h, n - 1) {
            assert(group_cols(h, n) == prev.push(n - 1));
            assert forall|c: int| 0 <= c < n && is_group_col(h, c) implies #[trigger] group_cols(h, n).contains(c) by {
                if c < n - 1 {
                    assert(prev.contains(c));
                    let m = choose|m: int| 0 <= m < prev.len() && prev[m] == c;
                    assert(group_cols(h, n)[m] == c);
                } else {
                    assert(group_cols(h, n)[prev.len() as int] == c);
                }
            }
        }
    }
}

/// Each group that the header names has exactly one line in the `[groups]`
/// section, and the lines follow the header's column order: line `m` belongs
/// to the group of column `group_cols(h)[m]`, those columns strictly increase,
/// and every group column is among them. Each line is the group's name with
/// `@` removed, `=`, and its members.
pub proof fn law_groups_in_header_order(rows: Seq<Vec<Cell>>, c: int)
    requires
        is_group_col(header(rows), c),
    ensures
        ({
            let h = header(rows);
            let cols = group_cols(h, h.len() as int);
            &&& group_lines(rows).len() == cols.len()
            &&& exists|m: int| 0 <= m < cols.len() && cols[m] == c
            &&& forall|a: int, b: int| 0 <= a < b < cols.len() ==> cols[a] < cols[b]
            &&& forall|m: int| 0 <= m < cols.len() ==> is_group_col(h, cols[m]) && #[trigger] group_lines(rows)[m]
                == without(cell_text(h, cols[m]), '@') + seq!['='] + join(members(rows, cols[m], rows.len() as int), seq![','])
        }),
{
    let h = header(rows);
    lemma_group_cols(h, h.len() as int);
    assert(0 <= c < h.len());
    assert(group_cols(h, h.len() as int).contains(c));
}

/// A repeated group name in the header always fails the sheet, and the fault
/// names a repeated group name.
pub proof fn law_repeated_group_fails(rows: Seq<Vec<Cell>>, users: Set<Seq<char>>, j: int, k: int)
    requires
        0 <= j < k,
        is_group_col(header(rows), j),
        cell_text(header(rows), j) == cell_text(header(rows), k),
    ensures
        authz_result(rows, users) is Err,
        exists|n: Seq<char>| #![auto]
            authz_result(rows, users) == Err::<Seq<char>, Fault>(Fault::GroupNameDup(n)) && exists|x: int|
                0 <= x < header(rows).len() && repeats_name(header(rows), x) && cell_text(header(rows), x) == n,
{
    let h = header(rows);
    assert(k < h.len());
    assert(repeats_name(h, k));
    let x = choose|x: int| first_repeat(h, x);
    lemma_some_first_repeat(h, k);
    assert(first_repeat(h, x));
    assert(authz_result(rows, users) == Err::<Seq<char>, Fault>(Fault::GroupNameDup(cell_text(h, x))));
}

/// Where some column repeats a name, some column is the first to.
proof fn lemma_some_first_repeat(h: Seq<Cell>, k: int)
    requires
        0 <= k < h.len(),
        repeats_name(h, k),
    ensures
        exists|x: int| first_repeat(h, x),
    decreases k,
{
    if forall|x: int| 0 <= x < k ==> !repeats_name(h, x) {
        assert(first_repeat(h, k));
    } else {
        let x = choose|x: int| 0 <= x < k && repeats_name(h, x);
        lemma_some_first_repeat(h, x);
    }
}

/// A user-assignment row of an unknown user fails the sheet with that username,
/// unless the header or an earlier row has failed it first.
pub proof fn law_unknown_user_fails(rows: Seq<Vec<Cell>>, users: Set<Seq<char>>, r: int)
    requires
        names_distinct(header(rows)),
        1 <= r < rows.len(),
        forall|q: int| 1 <= q < r ==> row_fault(rows, users, q) is None,
        is_user_key(row_key(rows, r)),
        !users.contains(row_key(rows, r)),
    ensures
        authz_result(rows, users) == Err::<Seq<char>, Fault>(Fault::UserNotExist(row_key(rows, r))),
{
    assert(first_faulty_row(rows, users, r));
    lemma_first_faulty_unique(rows, users, r);
}

/// A second user-assignment row for the same user fails the sheet with that
/// username, unless the header or an earlier row has failed it first.
pub proof fn law_repeated_user_fails(rows: Seq<Vec<Cell>>, users: Set<Seq<char>>, q: int, r: int)
    requires
        names_distinct(header(rows)),
        1 <= q < r < rows.len(),
        forall|p: int| 1 <= p < r ==> row_fault(rows, users, p) is None,
        is_user_key(row_key(rows, q)),
        row_key(rows, q) == row_key(rows, r),
        users.contains(row_key(rows, r)),
    ensures
        authz_result(rows, users) == Err::<Seq<char>, Fault>(Fault::UserDupAuth(row_key(rows, r))),
{
    assert(assigned_before(rows, r));
    assert(first_faulty_row(rows, users, r));
    lemma_first_faulty_unique(rows, users, r);
}

/// A rule row's first cell in a group column that is neither `r` nor `rw`
/// fails the sheet with that value, unless the header or an earlier row has
/// failed it first.
pub proof fn law_invalid_permission_fails(rows: Seq<Vec<Cell>>, users: Set<Seq<char>>, r: int, c: int)
    requires
        names_distinct(header(rows)),
        1 <= r < rows.len(),
        forall|p: int| 1 <= p < r ==> row_fault(rows, users, p) is None,
        is_rule_key(row_key(rows, r)),
        first_bad_perm(header(rows), rows[r]@, c),
    ensures
        authz_result(rows, users) == Err::<Seq<char>, Fault>(Fault::InvalidAuth(cell_text(rows[r]@, c))),
{
    lemma_first_bad_unique(header(rows), rows[r]@, c);
    assert(first_faulty_row(rows, users, r));
    lemma_first_faulty_unique(rows, users, r);
}

} // verus!
