use vstd::prelude::*;
use vstd::string::StringExecFns;

verus! {

/// One resolved file, ready to render: its display path and its decoded text.
#[derive(Debug)]
pub struct FileText {
    pub path: String,
    pub body: String,
}

/// The header line emitted before a file's body when headers are enabled.
pub open spec fn header_line(path: Seq<char>) -> Seq<char> {
    "== "@ + path + " ==\n"@
}

/// What one file contributes to the output.
pub open spec fn piece(f: FileText, header: bool) -> Seq<char> {
    if header {
        header_line(f.path@) + f.body@
    } else {
        f.body@
    }
}

/// The view of an optional separator: absent means empty.
pub open spec fn sep_view(separator: Option<String>) -> Seq<char> {
    match separator {
        Some(s) => s@,
        None => Seq::<char>::empty(),
    }
}

/// The whole rendered output: every file's piece, with the separator strictly
/// between consecutive pieces — never before the first, never after the last,
/// and never when there is only one file.
pub open spec fn rendered(files: Seq<FileText>, header: bool, sep: Seq<char>) -> Seq<char>
    decreases files.len(),
{
    if files.len() == 0 {
        Seq::<char>::empty()
    } else if files.len() == 1 {
        piece(files[0], header)
    } else {
        piece(files[0], header) + sep + rendered(files.drop_first(), header, sep)
    }
}

/// The exact concatenation of the bodies, with nothing in between.
pub open spec fn concat_bodies(files: Seq<FileText>) -> Seq<char>
    decreases files.len(),
{
    if files.len() == 0 {
        Seq::<char>::empty()
    } else {
        files[0].body@ + concat_bodies(files.drop_first())
    }
}

/// Extending a render by one more file appends one separator (when anything
/// precedes) and that file's piece.
pub proof fn lemma_rendered_snoc(s: Seq<FileText>, f: FileText, header: bool, sep: Seq<char>)
    ensures
        rendered(s.push(f), header, sep) == if s.len() == 0 {
            piece(f, header)
        } else {
            rendered(s, header, sep) + sep + piece(f, header)
        },
    decreases s.len(),
{
    if s.len() == 0 {
        assert(s.push(f).len() == 1);
        assert(s.push(f)[0] == f);
    } else {
        assert(s.push(f)[0] == s[0]);
        assert(s.push(f).drop_first() =~= s.drop_first().push(f));
        lemma_rendered_snoc(s.drop_first(), f, header, sep);
        if s.len() == 1 {
            assert(s.drop_first().len() == 0);
            assert(rendered(s, header, sep) == piece(s[0], header));
        } else {
            assert(piece(s[0], header) + sep + (rendered(s.drop_first(), header, sep) + sep
                + piece(f, header)) =~= (piece(s[0], header) + sep + rendered(
                s.drop_first(),
                header,
                sep,
            )) + sep + piece(f, header));
        }
    }
}

/// With headers off and no separator, the output is exactly the concatenation
/// of the file bodies.
pub proof fn lemma_rendered_plain(files: Seq<FileText>)
    ensures
        rendered(files, false, Seq::<char>::empty()) == concat_bodies(files),
    decreases files.len(),
{
    if files.len() > 0 {
        lemma_rendered_plain(files.drop_first());
        if files.len() == 1 {
            assert(concat_bodies(files.drop_first()) == Seq::<char>::empty());
            assert(files[0].body@ + Seq::<char>::empty() =~= files[0].body@);
        } else {
            assert(files[0].body@ + Seq::<char>::empty() + concat_bodies(files.drop_first())
                =~= files[0].body@ + concat_bodies(files.drop_first()));
        }
    }
}

/// Render the resolved files into one output buffer. The headers and the
/// separator placement follow `rendered` exactly.
pub fn gather_contents(files: &Vec<FileText>, separator: &Option<String>, header: bool) -> (r:
    String)
    ensures
        r@ == rendered(files@, header, sep_view(*separator)),
{
    let ghost sv = sep_view(*separator);
    let mut out = String::new();
    let n = files.len();
    let mut i: usize = 0;
    while i < n
        invariant
            n == files@.len(),
            i <= n,
            out@ == rendered(files@.take(i as int), header, sv) + if 0 < i < n {
                sv
            } else {
                Seq::<char>::empty()
            },
            sv == sep_view(*separator),
        decreases n - i,
    {
        let ghost prefix = files@.take(i as int);
        if header {
            out.append("== ");
            out.append(files[i].path.as_str());
            out.append(" ==\n");
        }
        out.append(files[i].body.as_str());
        let last = i + 1 == n;
        if !last {
            match separator {
                Some(s) => out.append(s.as_str()),
                None => (),
            }
        }
        proof {
            assert(files@.take(i + 1) =~= prefix.push(files@[i as int]));
            lemma_rendered_snoc(prefix, files@[i as int], header, sv);
            if i == 0 {
                assert(rendered(prefix, header, sv) == Seq::<char>::empty());
            }
            assert(out@ == rendered(files@.take(i + 1), header, sv) + if i + 1 < n {
                sv
            } else {
                Seq::<char>::empty()
            });
        }
        i += 1;
    }
    proof {
        assert(files@.take(n as int) =~= files@);
        assert(out@ =~= rendered(files@, header, sv));
    }
    out
}

/// The display form of a path; paths here are already plain text, so a copy
/// of the same characters.
pub fn display(path: &String) -> (r: String)
    ensures
        r@ == path@,
{
    path.clone()
}

/// How many bytes a rendered buffer delivers: the length of its UTF-8
/// encoding, reported to the user after a copy.
pub fn delivered_bytes(out: &String) -> (r: usize)
    ensures
        r == vstd::utf8::encode_utf8(out@).len() as usize,
{
    let s = out.as_str();
    proof {
        assert(vstd::string::StringSliceAdditionalSpecFns::spec_bytes(s)
            == vstd::utf8::encode_utf8(out@));
    }
    s.len()
}

/// The total size in bytes of the listed files, saturating at the largest
/// reportable value; used by list-only mode.
pub open spec fn size_sum(sizes: Seq<u64>) -> int
    decreases sizes.len(),
{
    if sizes.len() == 0 {
        0
    } else {
        sizes[0] + size_sum(sizes.drop_first())
    }
}

proof fn lemma_size_sum_snoc(sizes: Seq<u64>, v: u64)
    ensures
        size_sum(sizes.push(v)) == size_sum(sizes) + v,
    decreases sizes.len(),
{
    if sizes.len() == 0 {
        assert(sizes.push(v)[0] == v);
        assert(sizes.push(v).drop_first() =~= Seq::<u64>::empty());
        assert(size_sum(Seq::<u64>::empty()) == 0);
    } else {
        assert(sizes.push(v)[0] == sizes[0]);
        assert(sizes.push(v).drop_first() =~= sizes.drop_first().push(v));
        lemma_size_sum_snoc(sizes.drop_first(), v);
    }
}

proof fn lemma_size_sum_nonneg(sizes: Seq<u64>)
    ensures
        size_sum(sizes) >= 0,
    decreases sizes.len(),
{
    if sizes.len() > 0 {
        lemma_size_sum_nonneg(sizes.drop_first());
    }
}

/// Sum the byte sizes of the resolved files, saturating instead of
/// overflowing.
pub fn total_bytes(sizes: &Vec<u64>) -> (r: usize)
    ensures
        r as int == if size_sum(sizes@) <= usize::MAX as int {
            size_sum(sizes@)
        } else {
            usize::MAX as int
        },
{
    let mut total: usize = 0;
    let n = sizes.len();
    let mut i: usize = 0;
    proof {
        assert(sizes@.take(0) =~= Seq::<u64>::empty());
    }
    while i < n
        invariant
            n == sizes@.len(),
            i <= n,
            total as int == if size_sum(sizes@.take(i as int)) <= usize::MAX as int {
                size_sum(sizes@.take(i as int))
            } else {
                usize::MAX as int
            },
        decreases n - i,
    {
        let s = sizes[i];
        let add: usize = if s <= usize::MAX as u64 {
            s as usize
        } else {
            usize::MAX
        };
        proof {
            lemma_size_sum_nonneg(sizes@.take(i as int));
            lemma_size_sum_snoc(sizes@.take(i as int), sizes@[i as int]);
            assert(sizes@.take(i + 1) =~= sizes@.take(i as int).push(sizes@[i as int]));
        }
        total = if total <= usize::MAX - add {
            total + add
        } else {
            usize::MAX
        };
        i += 1;
    }
    proof {
        assert(sizes@.take(n as int) =~= sizes@);
    }
    total
}

} // verus!
