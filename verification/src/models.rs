//! What the model loader reads from an OBJ source itself: the material libraries it names.
use vstd::prelude::*;

use crate::chars::{str_chars, string_from_chars, trim, trim_chars};

verus! {

/// The pieces of `text` between line feeds, in order; there is always at least one.
pub open spec fn pieces(text: Seq<char>) -> Seq<Seq<char>>
    decreases text.len(),
{
    if text.len() == 0 {
        seq![Seq::empty()]
    } else {
        let p = pieces(text.drop_last());
        if text.last() == '\n' {
            p.push(Seq::empty())
        } else {
            p.update(p.len() - 1, p.last().push(text.last()))
        }
    }
}

/// The keyword that opens a material library line, with its separating space.
pub open spec fn mtllib_keyword() -> Seq<char> {
    seq!['m', 't', 'l', 'l', 'i', 'b', ' ']
}

/// The material library a line names: what follows the keyword, trimmed, when the line starts
/// with the keyword and something is left.
pub open spec fn library_of(line: Seq<char>) -> Option<Seq<char>> {
    if line.len() >= 7 && line.take(7) == mtllib_keyword() && trim(line.skip(7)).len() > 0 {
        Some(trim(line.skip(7)))
    } else {
        None
    }
}

/// The material libraries that `lines` name, in order.
pub open spec fn libraries_of(lines: Seq<Seq<char>>) -> Seq<Seq<char>>
    decreases lines.len(),
{
    if lines.len() == 0 {
        Seq::empty()
    } else {
        let r = libraries_of(lines.drop_last());
        match library_of(lines.last()) {
            Some(t) => r.push(t),
            None => r,
        }
    }
}

fn starts_with_keyword(line: &Vec<char>) -> (b: bool)
    ensures
        b == (line@.len() >= 7 && line@.take(7) == mtllib_keyword()),
{
    if line.len() < 7 {
        return false;
    }
    let b = line[0] == 'm' && line[1] == 't' && line[2] == 'l' && line[3] == 'l' && line[4] == 'i' && line[5]
        == 'b' && line[6] == ' ';
    proof {
        if b {
            assert(line@.take(7) =~= mtllib_keyword());
        } else {
            if line@.take(7) == mtllib_keyword() {
                assert(line@.take(7)[0] == 'm');
                assert(line@.take(7)[1] == 't');
                assert(line@.take(7)[2] == 'l');
                assert(line@.take(7)[3] == 'l');
                assert(line@.take(7)[4] == 'i');
                assert(line@.take(7)[5] == 'b');
                assert(line@.take(7)[6] == ' ');
            }
        }
    }
    b
}

/// The library that `line` names, if it names one.
fn line_library(line: &Vec<char>) -> (r: Option<String>)
    ensures
        match r {
            Some(s) => library_of(line@) == Some(s@),
            None => library_of(line@) is None,
        },
{
    if !starts_with_keyword(line) {
        return None;
    }
    let mut rest: Vec<char> = Vec::new();
    let mut i: usize = 7;
    while i < line.len()
        invariant
            7 <= i <= line@.len(),
            rest@ == line@.subrange(7, i as int),
        decreases line@.len() - i,
    {
        rest.push(line[i]);
        i = i + 1;
    }
    assert(rest@ == line@.skip(7));
    let t = trim_chars(&rest);
    if t.len() == 0 {
        None
    } else {
        Some(string_from_chars(&t))
    }
}

/// The material libraries an OBJ source names: each line that starts with `mtllib ` names the
/// rest of the line, trimmed, unless nothing is left. A line may end in "\r\n": trimming takes
/// the carriage return off.
pub fn material_libraries(source: &str) -> (libs: Vec<String>)
    ensures
        libs@.map_values(|s: String| s@) == libraries_of(pieces(source@)),
{
    let text = str_chars(source);
    let mut libs: Vec<String> = Vec::new();
    let mut line: Vec<char> = Vec::new();
    let ghost mut done: Seq<Seq<char>> = Seq::empty();
    let mut i: usize = 0;
    while i < text.len()
        invariant
            text@ == source@,
            i <= text@.len(),
            pieces(text@.take(i as int)) == done.push(line@),
            libs@.map_values(|s: String| s@) == libraries_of(done),
        decreases text@.len() - i,
    {
        let c = text[i];
        proof {
            assert(text@.take(i + 1).drop_last() == text@.take(i as int));
            assert(text@.take(i + 1).last() == c);
        }
        if c == '\n' {
            let found = line_library(&line);
            match found {
                Some(s) => {
                    let ghost before = libs@;
                    libs.push(s);
                    proof {
                        assert(libs@.map_values(|s: String| s@) == before.map_values(|s: String| s@).push(s@));
                    }
                },
                None => {},
            }
            proof {
                assert((done.push(line@)).drop_last() == done);
                assert((done.push(line@)).last() == line@);
                done = done.push(line@);
            }
            line = Vec::new();
            proof {
                assert(pieces(text@.take(i + 1)) == done.push(line@));
            }
        } else {
            let ghost before = line@;
            line.push(c);
            proof {
                let p = pieces(text@.take(i as int));
                assert(p.len() - 1 == done.len());
                assert(p.update(p.len() - 1, p.last().push(c)) =~= done.push(line@));
            }
        }
        i = i + 1;
    }
    assert(text@.take(text@.len() as int) == text@);
    let found = line_library(&line);
    match found {
        Some(s) => {
            let ghost before = libs@;
            libs.push(s);
            proof {
                assert(libs@.map_values(|s: String| s@) == before.map_values(|s: String| s@).push(s@));
            }
        },
        None => {},
    }
    proof {
        assert((done.push(line@)).drop_last() == done);
        assert((done.push(line@)).last() == line@);
    }
    libs
}

} // verus!
