//! The 5×5 key matrix of the digraph cipher: the distinct letters of the key
//! (with `I` folded into `J`), then the rest of the 25-letter alphabet.
use crate::monoalphabetic::{dedup, position_in};
use crate::text::{chars_of, is_letter, is_upper, string_of, to_upper, upper_of};
use vstd::prelude::*;

verus! {

/// The 25-letter alphabet without `I`.
pub open spec fn alphabet25() -> Seq<char> {
    seq![
        'A', 'B', 'C', 'D', 'E', 'F', 'G', 'H', 'J', 'K', 'L', 'M', 'N', 'O', 'P', 'Q', 'R',
        'S', 'T', 'U', 'V', 'W', 'X', 'Y', 'Z',
    ]
}

/// The index of a letter in `alphabet25`.
pub open spec fn alpha_index(c: char) -> int {
    if 'I' > c {
        c as int - 'A' as int
    } else {
        c as int - 'A' as int - 1
    }
}

/// A letter of the matrix alphabet.
pub open spec fn in_alphabet25(c: char) -> bool {
    is_upper(c) && c != 'I'
}

/// `c` upper-cased, with `I` read as `J`.
pub open spec fn fold_letter(c: char) -> char {
    if upper_of(c) == 'I' {
        'J'
    } else {
        upper_of(c)
    }
}

/// The ASCII letters of `s`, upper-cased, with `I` read as `J`.
pub open spec fn matrix_letters(s: Seq<char>) -> Seq<char>
    decreases s.len(),
{
    if s.len() == 0 {
        Seq::empty()
    } else if is_letter(s.last()) {
        matrix_letters(s.drop_last()).push(fold_letter(s.last()))
    } else {
        matrix_letters(s.drop_last())
    }
}

/// The letters of `alpha` that `used` does not hold, in order.
pub open spec fn missing_letters(alpha: Seq<char>, used: Seq<char>) -> Seq<char>
    decreases alpha.len(),
{
    if alpha.len() == 0 {
        Seq::empty()
    } else if used.contains(alpha.last()) {
        missing_letters(alpha.drop_last(), used)
    } else {
        missing_letters(alpha.drop_last(), used).push(alpha.last())
    }
}

/// The matrix of a key, row by row.
pub open spec fn matrix_of(key: Seq<char>) -> Seq<char> {
    let used = dedup(matrix_letters(key));
    used + missing_letters(alphabet25(), used)
}

/// The first line of the matrix's text form.
pub open spec fn header_spec(key: Seq<char>) -> Seq<char> {
    "Chave original: "@ + key + seq!['\n']
}

/// Row `r` as text: each letter followed by a space.
pub open spec fn row_spec(m: Seq<char>, r: int) -> Seq<char> {
    Seq::new(10, |i: int| if i % 2 == 0 { m[5 * r + i / 2] } else { ' ' })
}

/// The first `n` rows as text, one line each.
pub open spec fn rows_spec(m: Seq<char>, n: nat) -> Seq<char>
    decreases n,
{
    if n == 0 {
        Seq::empty()
    } else {
        rows_spec(m, (n - 1) as nat) + row_spec(m, n - 1) + seq!['\n']
    }
}

/// The text form of a matrix made from `key`.
pub open spec fn display_spec(key: Seq<char>, m: Seq<char>) -> Seq<char> {
    header_spec(key) + rows_spec(m, 5)
}

/// A row and a column of the matrix, each below 5.
#[derive(Clone, Copy, Debug, PartialEq, Eq)]
pub struct Pos {
    pub row: usize,
    pub column: usize,
}

pub struct KeyMatrix {
    original_key: String,
    contents: Vec<char>,
}

proof fn lemma_fold_letter(c: char)
    ensures
        is_letter(c) ==> in_alphabet25(fold_letter(c)),
{
    if is_letter(c) && !is_upper(c) {
        let x = ('A' as int) + (c as int - 'a' as int);
        assert((x as char) as int == x);
    }
}

pub(crate) proof fn lemma_matrix_letters(s: Seq<char>)
    ensures
        forall|i: int|
            0 <= i < matrix_letters(s).len() ==> in_alphabet25(#[trigger] matrix_letters(s)[i]),
    decreases s.len(),
{
    if s.len() > 0 {
        lemma_matrix_letters(s.drop_last());
        lemma_fold_letter(s.last());
        let rest = matrix_letters(s.drop_last());
        assert forall|i: int| 0 <= i < matrix_letters(s).len() implies in_alphabet25(
            #[trigger] matrix_letters(s)[i],
        ) by {
            if i < rest.len() {
                assert(matrix_letters(s)[i] == rest[i]);
            }
        }
    }
}

proof fn lemma_dedup_props(s: Seq<char>)
    ensures
        dedup(s).no_duplicates(),
        forall|i: int| 0 <= i < dedup(s).len() ==> s.contains(#[trigger] dedup(s)[i]),
        forall|i: int| 0 <= i < s.len() ==> dedup(s).contains(#[trigger] s[i]),
    decreases s.len(),
{
    if s.len() > 0 {
        lemma_dedup_props(s.drop_last());
        let d = dedup(s.drop_last());
        let t = s.drop_last();
        assert forall|i: int| 0 <= i < dedup(s).len() implies s.contains(#[trigger] dedup(s)[i]) by {
            if i < d.len() {
                let j = choose|j: int| 0 <= j < t.len() && t[j] == d[i];
                assert(s[j] == dedup(s)[i]);
            } else {
                assert(s[s.len() - 1] == dedup(s)[i]);
            }
        }
        assert forall|i: int| 0 <= i < s.len() implies dedup(s).contains(#[trigger] s[i]) by {
            if i < t.len() {
                assert(t[i] == s[i]);
                let j = choose|j: int| 0 <= j < d.len() && d[j] == t[i];
                assert(dedup(s)[j] == s[i]);
            } else if d.contains(s.last()) {
                let j = choose|j: int| 0 <= j < d.len() && d[j] == s.last();
                assert(dedup(s)[j] == s[i]);
            } else {
                assert(dedup(s)[d.len() as int] == s[i]);
            }
        }
    }
}

proof fn lemma_missing_letters(alpha: Seq<char>, used: Seq<char>)
    requires
        alpha.no_duplicates(),
    ensures
        missing_letters(alpha, used).no_duplicates(),
        forall|i: int|
            0 <= i < missing_letters(alpha, used).len() ==> alpha.contains(
                #[trigger] missing_letters(alpha, used)[i],
            ) && !used.contains(missing_letters(alpha, used)[i]),
        forall|i: int|
            0 <= i < alpha.len() && !used.contains(#[trigger] alpha[i]) ==> missing_letters(
                alpha,
                used,
            ).contains(alpha[i]),
    decreases alpha.len(),
{
    if alpha.len() > 0 {
        let a = alpha.drop_last();
        let m = missing_letters(a, used);
        lemma_missing_letters(a, used);
        let full = missing_letters(alpha, used);
        assert forall|i: int| 0 <= i < full.len() implies alpha.contains(#[trigger] full[i])
            && !used.contains(full[i]) by {
            if i < m.len() {
                let j = choose|j: int| 0 <= j < a.len() && a[j] == m[i];
                assert(alpha[j] == full[i]);
            } else {
                assert(alpha[alpha.len() - 1] == full[i]);
            }
        }
        assert forall|i: int| 0 <= i < alpha.len() && !used.contains(#[trigger] alpha[i]) implies full.contains(
            alpha[i],
        ) by {
            if i < a.len() {
                assert(a[i] == alpha[i]);
                let j = choose|j: int| 0 <= j < m.len() && m[j] == a[i];
                assert(full[j] == alpha[i]);
            } else {
                assert(full[m.len() as int] == alpha[i]);
            }
        }
        if !used.contains(alpha.last()) {
            assert forall|x: int, y: int|
                0 <= x < full.len() && 0 <= y < full.len() && x != y implies full[x] != full[y] by {
                if x < m.len() && y < m.len() {
                    assert(m[x] != m[y]);
                } else if x < m.len() {
                    let j = choose|j: int| 0 <= j < a.len() && a[j] == m[x];
                    assert(alpha[j] == full[x]);
                    assert(full[y] == alpha[alpha.len() - 1]);
                } else if y < m.len() {
                    let j = choose|j: int| 0 <= j < a.len() && a[j] == m[y];
                    assert(alpha[j] == full[y]);
                    assert(full[x] == alpha[alpha.len() - 1]);
                }
            }
        }
    }
}

/// The matrix of every key holds each letter of the 25-letter alphabet once.
proof fn lemma_matrix_of(key: Seq<char>)
    ensures
        matrix_of(key).len() == 25,
        matrix_of(key).no_duplicates(),
        forall|i: int| 0 <= i < 25 ==> in_alphabet25(#[trigger] matrix_of(key)[i]),
        forall|c: char| in_alphabet25(c) ==> matrix_of(key).contains(c),
{
    let letters = matrix_letters(key);
    let used = dedup(letters);
    let alpha = alphabet25();
    let rest = missing_letters(alpha, used);
    let m = matrix_of(key);
    lemma_matrix_letters(key);
    lemma_dedup_props(letters);
    assert(alpha.no_duplicates());
    lemma_missing_letters(alpha, used);
    assert forall|i: int| 0 <= i < used.len() implies in_alphabet25(#[trigger] used[i]) by {
        let j = choose|j: int| 0 <= j < letters.len() && letters[j] == used[i];
    }
    assert forall|i: int| 0 <= i < m.len() implies in_alphabet25(#[trigger] m[i]) by {
        if i < used.len() {
            assert(m[i] == used[i]);
        } else {
            assert(m[i] == rest[i - used.len()]);
            let j = choose|j: int| 0 <= j < alpha.len() && alpha[j] == rest[i - used.len()];
        }
    }
    assert forall|x: int, y: int| 0 <= x < m.len() && 0 <= y < m.len() && x != y implies m[x] != m[y] by {
        if x < used.len() && y < used.len() {
        } else if x >= used.len() && y >= used.len() {
            assert(rest[x - used.len()] != rest[y - used.len()]);
        } else if x < used.len() {
            assert(m[x] == used[x]);
            assert(!used.contains(rest[y - used.len()]));
        } else {
            assert(m[y] == used[y]);
            assert(!used.contains(rest[x - used.len()]));
        }
    }
    assert forall|c: char| in_alphabet25(c) implies m.contains(c) by {
        let k = alpha_index(c);
        assert(alpha[k] == c);
        if used.contains(c) {
            let j = choose|j: int| 0 <= j < used.len() && used[j] == c;
            assert(m[j] == c);
        } else {
            let j = choose|j: int| 0 <= j < rest.len() && rest[j] == alpha[k];
            assert(m[used.len() + j] == c);
        }
    }
    assert(m.to_set() =~= alpha.to_set()) by {
        assert forall|c: char| m.to_set().contains(c) implies alpha.to_set().contains(c) by {
            let j = choose|j: int| 0 <= j < m.len() && m[j] == c;
            let k = alpha_index(c);
            assert(alpha[k] == c);
        }
        assert forall|c: char| alpha.to_set().contains(c) implies m.to_set().contains(c) by {
            let j = choose|j: int| 0 <= j < alpha.len() && alpha[j] == c;
            assert(in_alphabet25(alpha[j]));
        }
    }
    m.unique_seq_to_set();
    alpha.unique_seq_to_set();
}

impl KeyMatrix {
    #[verifier::type_invariant]
    spec fn inv(&self) -> bool {
        &&& self.contents@.len() == 25
        &&& self.contents@.no_duplicates()
        &&& forall|i: int| 0 <= i < 25 ==> in_alphabet25(#[trigger] self.contents@[i])
        &&& forall|c: char| in_alphabet25(c) ==> self.contents@.contains(c)
    }

    /// The 25 letters of the matrix, row by row.
    pub closed spec fn contents(&self) -> Seq<char> {
        self.contents@
    }

    /// The key the matrix was made from.
    pub closed spec fn original_key(&self) -> Seq<char> {
        self.original_key@
    }

    /// The distinct letters of `key` (upper-cased, `I` as `J`), then the
    /// other letters of the 25-letter alphabet in order.
    pub fn new(key: String) -> (r: Self)
        ensures
            r.contents() == matrix_of(key@),
            r.original_key() == key@,
    {
        let chars = chars_of(&key);
        let mut used: Vec<char> = Vec::new();
        let mut i: usize = 0;
        while i < chars.len()
            invariant
                i <= chars@.len(),
                chars@ == key@,
                used@ == dedup(matrix_letters(chars@.take(i as int))),
            decreases chars@.len() - i,
        {
            let c = chars[i];
            let ghost before = chars@.take(i as int);
            assert(chars@.take(i + 1).drop_last() =~= before);
            if ('A' <= c && c <= 'Z') || ('a' <= c && c <= 'z') {
                let u = to_upper(c);
                let f = if u == 'I' { 'J' } else { u };
                assert(matrix_letters(chars@.take(i + 1)) == matrix_letters(before).push(f));
                assert(matrix_letters(before).push(f).drop_last() =~= matrix_letters(before));
                if !contains(&used, f) {
                    used.push(f);
                }
            }
            i = i + 1;
        }
        assert(chars@.take(i as int) =~= chars@);
        let alpha = alphabet();
        let mut contents: Vec<char> = Vec::new();
        let mut k: usize = 0;
        while k < used.len()
            invariant
                k <= used@.len(),
                contents@ =~= used@.take(k as int),
            decreases used@.len() - k,
        {
            contents.push(used[k]);
            k = k + 1;
        }
        let mut j: usize = 0;
        while j < alpha.len()
            invariant
                j <= alpha@.len(),
                alpha@ == alphabet25(),
                contents@ == used@ + missing_letters(alpha@.take(j as int), used@),
            decreases alpha@.len() - j,
        {
            let l = alpha[j];
            assert(alpha@.take(j + 1).drop_last() =~= alpha@.take(j as int));
            if !contains(&used, l) {
                contents.push(l);
                assert(contents@ =~= used@ + missing_letters(alpha@.take(j + 1), used@));
            }
            j = j + 1;
        }
        assert(alpha@.take(j as int) =~= alpha@);
        proof {
            lemma_matrix_of(key@);
        }
        KeyMatrix { original_key: key, contents }
    }

    /// Where the letter `ch` (either case, not `I`) stands.
    pub fn get_position(&self, ch: char) -> (r: Pos)
        requires
            is_letter(ch),
            upper_of(ch) != 'I',
        ensures
            r.row < 5,
            r.column < 5,
            self.contents()[5 * r.row + r.column] == upper_of(ch),
            5 * r.row + r.column == position_in(self.contents(), upper_of(ch)),
    {
        proof {
            use_type_invariant(self);
        }
        let u = to_upper(ch);
        assert(in_alphabet25(u));
        let mut idx: usize = 0;
        while idx < 25
            invariant
                idx <= 25,
                self.contents@.len() == 25,
                self.contents@.contains(u),
                self.contents@.no_duplicates(),
                u == upper_of(ch),
                forall|t: int| 0 <= t < idx ==> self.contents@[t] != u,
            decreases 25 - idx,
        {
            if self.contents[idx] == u {
                proof {
                    let p = position_in(self.contents@, u);
                    assert(self.contents@[p] == u);
                    assert(p == idx);
                }
                let row = idx / 5;
                let column = idx % 5;
                assert(5 * row + column == idx) by (nonlinear_arith)
                    requires
                        row == idx / 5,
                        column == idx % 5,
                ;
                return Pos { row, column };
            }
            idx = idx + 1;
        }
        assert(false);
        Pos { row: 0, column: 0 }
    }

    /// The letter at `position`.
    pub fn get_char(&self, position: &Pos) -> (r: char)
        requires
            position.row < 5,
            position.column < 5,
        ensures
            r == self.contents()[5 * position.row + position.column],
            in_alphabet25(r),
    {
        proof {
            use_type_invariant(self);
        }
        self.contents[position.row * 5 + position.column]
    }

    /// The 25 letters, row by row.
    pub fn letters(&self) -> (r: Vec<char>)
        ensures
            r@ == self.contents(),
    {
        let mut r: Vec<char> = Vec::new();
        let mut k: usize = 0;
        while k < self.contents.len()
            invariant
                k <= self.contents@.len(),
                r@ =~= self.contents@.take(k as int),
            decreases self.contents@.len() - k,
        {
            r.push(self.contents[k]);
            k = k + 1;
        }
        assert(r@ =~= self.contents@);
        r
    }

    /// The key and the matrix as text: a line naming the key, then one line
    /// per row with each letter followed by a space.
    pub fn to_display_string(&self) -> (r: String)
        ensures
            r@ == display_spec(self.original_key(), self.contents()),
    {
        proof {
            use_type_invariant(self);
        }
        let mut out = chars_of("Chave original: ");
        let key = chars_of(&self.original_key);
        let mut k: usize = 0;
        let ghost head = out@;
        while k < key.len()
            invariant
                k <= key@.len(),
                out@ =~= head + key@.take(k as int),
            decreases key@.len() - k,
        {
            out.push(key[k]);
            k = k + 1;
        }
        assert(key@.take(k as int) =~= key@);
        out.push('\n');
        let mut row: usize = 0;
        while row < 5
            invariant
                row <= 5,
                self.contents@.len() == 25,
                out@ =~= header_spec(self.original_key()) + rows_spec(self.contents(), row as nat),
            decreases 5 - row,
        {
            let mut col: usize = 0;
            let ghost before = out@;
            while col < 5
                invariant
                    row < 5,
                    col <= 5,
                    self.contents@.len() == 25,
                    out@ =~= before + row_spec(self.contents(), row as int).take(2 * col),
                decreases 5 - col,
            {
                out.push(self.contents[row * 5 + col]);
                out.push(' ');
                col = col + 1;
            }
            out.push('\n');
            assert(row_spec(self.contents(), row as int).take(10) =~= row_spec(self.contents(), row as int));
            row = row + 1;
        }
        string_of(&out)
    }
}

/// The 25-letter alphabet as code.
fn alphabet() -> (r: Vec<char>)
    ensures
        r@ == alphabet25(),
{
    let r = vec![
        'A', 'B', 'C', 'D', 'E', 'F', 'G', 'H', 'J', 'K', 'L', 'M', 'N', 'O', 'P', 'Q', 'R',
        'S', 'T', 'U', 'V', 'W', 'X', 'Y', 'Z',
    ];
    assert(r@ =~= alphabet25());
    r
}

/// Whether `v` holds `c`.
fn contains(v: &Vec<char>, c: char) -> (r: bool)
    ensures
        r == v@.contains(c),
{
    let mut i: usize = 0;
    while i < v.len()
        invariant
            i <= v@.len(),
            forall|t: int| 0 <= t < i ==> v@[t] != c,
        decreases v@.len() - i,
    {
        if v[i] == c {
            return true;
        }
        i = i + 1;
    }
    false
}

} // verus!
