use vstd::prelude::*;

use crate::authz::{authz_result, build_authz};
use crate::cell::Cell;
use crate::error::{CsvError, Fault};
use crate::passwd::{
    build_passwd, first_lacking, lemma_first_lacking_unique, passwd_result, passwd_users,
};
use crate::cell::cell_text;
use crate::text::owned;

verus! {

/// A named sheet of a workbook: its rows of cells.
pub struct Sheet {
    pub name: String,
    pub rows: Vec<Vec<Cell>>,
}

/// A workbook: its sheets, in order.
pub struct Workbook {
    pub sheets: Vec<Sheet>,
}

/// Sheet `i` is the first named `name`.
pub open spec fn first_named(sheets: Seq<Sheet>, name: Seq<char>, i: int) -> bool {
    &&& 0 <= i < sheets.len()
    &&& sheets[i].name@ == name
    &&& forall|j: int| 0 <= j < i ==> #[trigger] sheets[j].name@ != name
}

/// The rows of the first sheet named `name`, if any.
pub open spec fn sheet_rows(sheets: Seq<Sheet>, name: Seq<char>) -> Option<Seq<Vec<Cell>>> {
    if exists|i: int| 0 <= i < sheets.len() && sheets[i].name@ == name {
        Some(sheets[choose|i: int| first_named(sheets, name, i)].rows@)
    } else {
        None
    }
}

proof fn lemma_first_named_unique(sheets: Seq<Sheet>, name: Seq<char>, i: int)
    requires
        first_named(sheets, name, i),
    ensures
        (choose|k: int| first_named(sheets, name, k)) == i,
{
    let k = choose|k: int| first_named(sheets, name, k);
    assert(first_named(sheets, name, k));
    if k < i {
        assert(sheets[k].name@ != name);
    } else if k > i {
        assert(sheets[i].name@ != name);
    }
}

impl Workbook {
    /// The position of the first sheet named `name`.
    pub fn sheet_index(&self, name: &String) -> (r: Option<usize>)
        ensures
            match r {
                Some(i) => first_named(self.sheets@, name@, i as int) && sheet_rows(self.sheets@, name@)
                    == Some(self.sheets@[i as int].rows@),
                None => sheet_rows(self.sheets@, name@) is None,
            },
    {
        let mut i: usize = 0;
        while i < self.sheets.len()
            invariant
                i <= self.sheets@.len(),
                forall|j: int| 0 <= j < i ==> #[trigger] self.sheets@[j].name@ != name@,
            decreases self.sheets.len() - i,
        {
            if self.sheets[i].name == *name {
                proof {
                    lemma_first_named_unique(self.sheets@, name@, i as int);
                }
                return Some(i);
            }
            i = i + 1;
        }
        None
    }
}

/// The text of column `c` when that cell holds a string; nothing for an empty
/// cell, another kind of value, or a column past the row's end.
pub open spec fn string_cell(row: Seq<Cell>, c: int) -> Option<Seq<char>> {
    if 0 <= c < row.len() {
        match row[c] {
            Cell::Text(s) => Some(s@),
            _ => None,
        }
    } else {
        None
    }
}

fn string_at(row: &Vec<Cell>, c: usize) -> (r: Option<String>)
    ensures
        match r {
            Some(s) => string_cell(row@, c as int) == Some(s@),
            None => string_cell(row@, c as int) is None,
        },
{
    if c < row.len() {
        match &row[c] {
            Cell::Text(s) => Some(s.clone()),
            _ => None,
        }
    } else {
        None
    }
}

/// The (group sheet, output file) pairs that the index sheet lists in the data
/// rows before row `n`: those rows whose first two cells both hold strings.
pub open spec fn config_entries(rows: Seq<Vec<Cell>>, n: int) -> Seq<(Seq<char>, Seq<char>)>
    decreases n,
{
    if n <= 1 {
        Seq::empty()
    } else if string_cell(rows[n - 1]@, 0) is Some && string_cell(rows[n - 1]@, 1) is Some {
        config_entries(rows, n - 1).push(
            (string_cell(rows[n - 1]@, 0)->0, string_cell(rows[n - 1]@, 1)->0),
        )
    } else {
        config_entries(rows, n - 1)
    }
}

/// The texts of a vector of string pairs.
pub open spec fn pair_texts(v: Seq<(String, String)>) -> Seq<(Seq<char>, Seq<char>)> {
    v.map_values(|p: (String, String)| (p.0@, p.1@))
}

/// The (group sheet, output file) pairs that the index sheet lists.
pub fn config_pairs(rows: &Vec<Vec<Cell>>) -> (r: Vec<(String, String)>)
    ensures
        pair_texts(r@) == config_entries(rows@, rows@.len() as int),
{
    let mut r: Vec<(String, String)> = Vec::new();
    let mut n: usize = 1;
    while n < rows.len()
        invariant
            1 <= n,
            n <= rows@.len() || n == 1,
            pair_texts(r@) == config_entries(rows@, n as int),
        decreases rows.len() - n,
    {
        let row = &rows[n];
        let sheet = string_at(row, 0);
        let file = string_at(row, 1);
        match (sheet, file) {
            (Some(s), Some(f)) => {
                let ghost before = r@;
                r.push((s, f));
                assert(pair_texts(r@) =~= pair_texts(before).push((r@.last().0@, r@.last().1@)));
            },
            _ => {},
        }
        n = n + 1;
    }
    if rows.len() == 0 {
        assert(config_entries(rows@, 0) == config_entries(rows@, 1));
    }
    r
}

/// The name of the sheet of users and passwords.
pub open spec fn passwd_sheet() -> Seq<char> {
    seq!['p', 'a', 's', 's', 'w', 'd']
}

/// The name of the index sheet that lists the group sheets.
pub open spec fn config_sheet() -> Seq<char> {
    seq!['c', 'o', 'n', 'f', 'i', 'g']
}

/// The authorization files that the listed (group sheet, output file) pairs
/// give, in list order; or the first fault met, a missing sheet included.
pub open spec fn authz_files(
    sheets: Seq<Sheet>,
    users: Set<Seq<char>>,
    entries: Seq<(Seq<char>, Seq<char>)>,
) -> Result<Seq<(Seq<char>, Seq<char>)>, Fault>
    decreases entries.len(),
{
    if entries.len() == 0 {
        Ok(Seq::empty())
    } else {
        match authz_files(sheets, users, entries.drop_last()) {
            Err(f) => Err(f),
            Ok(done) => {
                let (sheet, file) = entries.last();
                match sheet_rows(sheets, sheet) {
                    None => Err(Fault::SheetNotFound(sheet)),
                    Some(rows) => match authz_result(rows, users) {
                        Err(f) => Err(f),
                        Ok(body) => Ok(done.push((file, body))),
                    },
                }
            },
        }
    }
}

/// What a workbook gives: the credentials file and the (output file, body) pairs
/// of the authorization files; or the first fault, in the order the sheets are read.
pub open spec fn convert_result(sheets: Seq<Sheet>) -> Result<(Seq<char>, Seq<(Seq<char>, Seq<char>)>), Fault> {
    match sheet_rows(sheets, passwd_sheet()) {
        None => Err(Fault::SheetNotFound(passwd_sheet())),
        Some(p) => match passwd_result(p) {
            Err(f) => Err(f),
            Ok(creds) => match sheet_rows(sheets, config_sheet()) {
                None => Err(Fault::SheetNotFound(config_sheet())),
                Some(cfg) => match authz_files(sheets, passwd_users(p), config_entries(cfg, cfg.len() as int)) {
                    Err(f) => Err(f),
                    Ok(files) => Ok((creds, files)),
                },
            },
        },
    }
}

/// Once a prefix of the list fails, the whole list fails the same way.
proof fn lemma_fault_persists(
    sheets: Seq<Sheet>,
    users: Set<Seq<char>>,
    entries: Seq<(Seq<char>, Seq<char>)>,
    i: int,
)
    requires
        0 <= i <= entries.len(),
        authz_files(sheets, users, entries.take(i)) is Err,
    ensures
        authz_files(sheets, users, entries) == authz_files(sheets, users, entries.take(i)),
    decreases entries.len(),
{
    if i == entries.len() {
        assert(entries.take(i) =~= entries);
    } else {
        assert(entries.drop_last().take(i) =~= entries.take(i));
        lemma_fault_persists(sheets, users, entries.drop_last(), i);
    }
}

/// One output file: its name and its text.
pub struct AuthzFile {
    pub file: String,
    pub body: String,
}

/// The texts of the output files.
pub open spec fn file_texts(v: Seq<AuthzFile>) -> Seq<(Seq<char>, Seq<char>)> {
    v.map_values(|f: AuthzFile| (f.file@, f.body@))
}

/// Everything a workbook converts to, held until every sheet has been checked.
pub struct Outputs {
    pub passwd: String,
    pub authz: Vec<AuthzFile>,
}

/// Converts a workbook: the credentials file from the `passwd` sheet, then one
/// authorization file for each pair that the `config` sheet lists, each checked
/// against the users of the credentials file. Nothing is returned but the first
/// fault when any sheet is faulty, so that no file need be written.
pub fn build_outputs(book: &Workbook) -> (r: Result<Outputs, CsvError>)
    ensures
        match r {
            Ok(o) => convert_result(book.sheets@) == Ok::<(Seq<char>, Seq<(Seq<char>, Seq<char>)>), Fault>(
                (o.passwd@, file_texts(o.authz@)),
            ),
            Err(e) => convert_result(book.sheets@) == Err::<(Seq<char>, Seq<(Seq<char>, Seq<char>)>), Fault>(e@),
        },
{
    let passwd_name = owned("passwd");
    let config_name = owned("config");
    proof {
        reveal_strlit("passwd");
        reveal_strlit("config");
    }
    assert(passwd_name@ =~= passwd_sheet());
    assert(config_name@ =~= config_sheet());
    let pi = match book.sheet_index(&passwd_name) {
        Some(i) => i,
        None => {
            return Err(CsvError::SheetNotFound(passwd_name));
        },
    };
    let creds = match build_passwd(&book.sheets[pi].rows) {
        Ok(c) => c,
        Err(e) => {
            return Err(e);
        },
    };
    let ci = match book.sheet_index(&config_name) {
        Some(i) => i,
        None => {
            return Err(CsvError::SheetNotFound(config_name));
        },
    };
    let cfg_rows = &book.sheets[ci].rows;
    let pairs = config_pairs(cfg_rows);
    let ghost entries = pair_texts(pairs@);
    let ghost users = creds.users@;
    assert(users == passwd_users(book.sheets@[pi as int].rows@));
    assert(convert_result(book.sheets@) == match authz_files(book.sheets@, users, entries) {
        Err(f) => Err(f),
        Ok(fs) => Ok::<(Seq<char>, Seq<(Seq<char>, Seq<char>)>), Fault>((creds.body@, fs)),
    });
    let mut files: Vec<AuthzFile> = Vec::new();
    let mut i: usize = 0;
    assert(entries.take(0) =~= Seq::<(Seq<char>, Seq<char>)>::empty());
    assert(file_texts(files@) =~= Seq::<(Seq<char>, Seq<char>)>::empty());
    while i < pairs.len()
        invariant
            i <= pairs@.len(),
            entries == pair_texts(pairs@),
            users == creds.users@,
            convert_result(book.sheets@) == match authz_files(book.sheets@, users, entries) {
                Err(f) => Err(f),
                Ok(fs) => Ok::<(Seq<char>, Seq<(Seq<char>, Seq<char>)>), Fault>((creds.body@, fs)),
            },
            authz_files(book.sheets@, users, entries.take(i as int)) == Ok::<Seq<(Seq<char>, Seq<char>)>, Fault>(
                file_texts(files@),
            ),
        decreases pairs.len() - i,
    {
        let ghost next = entries.take(i + 1);
        assert(next.drop_last() =~= entries.take(i as int));
        assert(next.last() == (pairs@[i as int].0@, pairs@[i as int].1@));
        let sheet = &pairs[i].0;
        let file = &pairs[i].1;
        let si = match book.sheet_index(sheet) {
            Some(k) => k,
            None => {
                assert(authz_files(book.sheets@, users, next) == Err::<Seq<(Seq<char>, Seq<char>)>, Fault>(
                    Fault::SheetNotFound(sheet@),
                ));
                proof {
                    lemma_fault_persists(book.sheets@, users, entries, i + 1);
                }
                assert(entries.take(entries.len() as int) =~= entries);
                return Err(CsvError::SheetNotFound(sheet.clone()));
            },
        };
        let body = match build_authz(&book.sheets[si].rows, &creds.users) {
            Ok(b) => b,
            Err(e) => {
                assert(authz_files(book.sheets@, users, next) == Err::<Seq<(Seq<char>, Seq<char>)>, Fault>(e@));
                proof {
                    lemma_fault_persists(book.sheets@, users, entries, i + 1);
                }
                assert(entries.take(entries.len() as int) =~= entries);
                return Err(e);
            },
        };
        let ghost before = files@;
        files.push(AuthzFile { file: file.clone(), body });
        assert(file_texts(files@) =~= file_texts(before).push((file@, files@.last().body@)));
        i = i + 1;
    }
    assert(entries.take(pairs@.len() as int) =~= entries);
    Ok(Outputs { passwd: creds.body, authz: files })
}

/// A row of the `passwd` sheet that names a user without a password fails the
/// whole conversion with that username, before any file is produced; the first
/// such row is the one reported.
pub proof fn law_empty_password_fails(sheets: Seq<Sheet>, i: int)
    requires
        sheet_rows(sheets, passwd_sheet()) is Some,
        first_lacking(sheet_rows(sheets, passwd_sheet())->0, i),
    ensures
        convert_result(sheets) == Err::<(Seq<char>, Seq<(Seq<char>, Seq<char>)>), Fault>(
            Fault::UserEmptyPwd(cell_text((sheet_rows(sheets, passwd_sheet())->0)[i]@, 0)),
        ),
{
    lemma_first_lacking_unique(sheet_rows(sheets, passwd_sheet())->0, i);
}

/// Converting the same workbook twice gives the same files, letter for letter:
/// any two outcomes that the conversion's contract admits are equal.
pub proof fn law_conversion_repeatable(sheets: Seq<Sheet>, first: Outputs, second: Outputs)
    requires
        convert_result(sheets) == Ok::<(Seq<char>, Seq<(Seq<char>, Seq<char>)>), Fault>(
            (first.passwd@, file_texts(first.authz@)),
        ),
        convert_result(sheets) == Ok::<(Seq<char>, Seq<(Seq<char>, Seq<char>)>), Fault>(
            (second.passwd@, file_texts(second.authz@)),
        ),
    ensures
        first.passwd@ == second.passwd@,
        file_texts(first.authz@) == file_texts(second.authz@),
{
}

} // verus!
