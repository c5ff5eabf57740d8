//! Content encodings, their wire tokens, the external codec program that
//! backs each one, and the parsing of a probe of which programs the host has
//! installed.

use vstd::prelude::*;
use vstd::slice::slice_to_vec;
use vstd::string::StringSliceAdditionalSpecFns;

use crate::text::{bytes_eq, find_byte, spec_find_byte};

verus! {

/// A content encoding of the `Accept-Encoding` / `Content-Encoding` headers.
#[derive(Clone, Copy, Debug, PartialEq, Eq, Structural)]
pub enum Encoding {
    Gzip,
    Compress,
    Deflate,
    Br,
    Zstd,
}

/// The wire token of an encoding.
pub open spec fn spec_token(e: Encoding) -> Seq<u8> {
    match e {
        Encoding::Gzip => "gzip".spec_bytes(),
        Encoding::Compress => "compress".spec_bytes(),
        Encoding::Deflate => "deflate".spec_bytes(),
        Encoding::Br => "br".spec_bytes(),
        Encoding::Zstd => "zstd".spec_bytes(),
    }
}

/// The encoding a wire token names, if any; comparison is exact.
pub open spec fn spec_parse_encoding(v: Seq<u8>) -> Option<Encoding> {
    if v == "gzip".spec_bytes() {
        Some(Encoding::Gzip)
    } else if v == "compress".spec_bytes() {
        Some(Encoding::Compress)
    } else if v == "deflate".spec_bytes() {
        Some(Encoding::Deflate)
    } else if v == "br".spec_bytes() {
        Some(Encoding::Br)
    } else if v == "zstd".spec_bytes() {
        Some(Encoding::Zstd)
    } else {
        None
    }
}

/// Every encoding, in the fixed order of the enum.
pub open spec fn all_encodings() -> Seq<Encoding> {
    seq![Encoding::Gzip, Encoding::Compress, Encoding::Deflate, Encoding::Br, Encoding::Zstd]
}

/// The external program that compresses to this encoding, if one is
/// configured.
pub open spec fn spec_program(e: Encoding) -> Option<Seq<u8>> {
    match e {
        Encoding::Gzip => Some("gzip".spec_bytes()),
        Encoding::Compress => None,
        Encoding::Deflate => None,
        Encoding::Br => Some("brotli".spec_bytes()),
        Encoding::Zstd => Some("zstd".spec_bytes()),
    }
}

/// The fixed compress-mode arguments handed to the external program.
pub open spec fn spec_args(e: Encoding) -> Seq<Seq<u8>> {
    match e {
        Encoding::Gzip => seq!["-q".spec_bytes(), "-c".spec_bytes()],
        Encoding::Compress => seq![],
        Encoding::Deflate => seq![],
        Encoding::Br => seq!["-c".spec_bytes()],
        Encoding::Zstd => seq!["-q".spec_bytes(), "-c".spec_bytes()],
    }
}

impl Encoding {
    /// Parses a wire token; unknown tokens yield `None`.
    pub fn parse(bytes: &[u8]) -> (r: Option<Encoding>)
        ensures
            r == spec_parse_encoding(bytes@),
    {
        if bytes_eq(bytes, "gzip".as_bytes()) {
            Some(Encoding::Gzip)
        } else if bytes_eq(bytes, "compress".as_bytes()) {
            Some(Encoding::Compress)
        } else if bytes_eq(bytes, "deflate".as_bytes()) {
            Some(Encoding::Deflate)
        } else if bytes_eq(bytes, "br".as_bytes()) {
            Some(Encoding::Br)
        } else if bytes_eq(bytes, "zstd".as_bytes()) {
            Some(Encoding::Zstd)
        } else {
            None
        }
    }

    /// The wire token of this encoding.
    pub fn token(&self) -> (r: Vec<u8>)
        ensures
            r@ == spec_token(*self),
    {
        match self {
            Encoding::Gzip => slice_to_vec("gzip".as_bytes()),
            Encoding::Compress => slice_to_vec("compress".as_bytes()),
            Encoding::Deflate => slice_to_vec("deflate".as_bytes()),
            Encoding::Br => slice_to_vec("br".as_bytes()),
            Encoding::Zstd => slice_to_vec("zstd".as_bytes()),
        }
    }

    /// Every encoding, in a fixed order.
    pub fn all() -> (r: Vec<Encoding>)
        ensures
            r@ == all_encodings(),
    {
        let mut v: Vec<Encoding> = Vec::new();
        v.push(Encoding::Gzip);
        v.push(Encoding::Compress);
        v.push(Encoding::Deflate);
        v.push(Encoding::Br);
        v.push(Encoding::Zstd);
        proof {
            assert(v@ =~= all_encodings());
        }
        v
    }
}

/// An invocation of an external codec program: the program's name and its
/// fixed compress-mode arguments.
pub struct CodecCommand {
    pub program: Vec<u8>,
    pub args: Vec<Vec<u8>>,
}

/// A capability backed by an external compression program.
pub trait SystemEncoder {
    /// The name of the external program, if one is configured.
    spec fn encoder_program(&self) -> Option<Seq<u8>>;

    /// The fixed compress-mode arguments of the external program.
    spec fn encoder_args(&self) -> Seq<Seq<u8>>;

    /// The program's name, if one is configured.
    fn program(&self) -> (r: Option<&'static str>)
        ensures
            match r {
                Some(p) => self.encoder_program() == Some(p.spec_bytes()),
                None => self.encoder_program() is None,
            },
    ;

    /// The program and arguments to spawn, if a program is configured.
    fn command(&self) -> (r: Option<CodecCommand>)
        ensures
            match r {
                Some(c) => self.encoder_program() == Some(c.program@) && c.args.deep_view()
                    == self.encoder_args(),
                None => self.encoder_program() is None,
            },
    ;
}

impl SystemEncoder for Encoding {
    open spec fn encoder_program(&self) -> Option<Seq<u8>> {
        spec_program(*self)
    }

    open spec fn encoder_args(&self) -> Seq<Seq<u8>> {
        spec_args(*self)
    }

    fn program(&self) -> (r: Option<&'static str>)
    {
        match self {
            Encoding::Gzip => Some("gzip"),
            Encoding::Compress => None,
            Encoding::Deflate => None,
            Encoding::Br => Some("brotli"),
            Encoding::Zstd => Some("zstd"),
        }
    }

    fn command(&self) -> (r: Option<CodecCommand>)
    {
        match self {
            Encoding::Gzip => {
                let mut args: Vec<Vec<u8>> = Vec::new();
                args.push(slice_to_vec("-q".as_bytes()));
                args.push(slice_to_vec("-c".as_bytes()));
                proof {
                    assert(args.deep_view() =~~= spec_args(Encoding::Gzip));
                }
                Some(CodecCommand { program: slice_to_vec("gzip".as_bytes()), args })
            },
            Encoding::Compress => None,
            Encoding::Deflate => None,
            Encoding::Br => {
                let mut args: Vec<Vec<u8>> = Vec::new();
                args.push(slice_to_vec("-c".as_bytes()));
                proof {
                    assert(args.deep_view() =~~= spec_args(Encoding::Br));
                }
                Some(CodecCommand { program: slice_to_vec("brotli".as_bytes()), args })
            },
            Encoding::Zstd => {
                let mut args: Vec<Vec<u8>> = Vec::new();
                args.push(slice_to_vec("-q".as_bytes()));
                args.push(slice_to_vec("-c".as_bytes()));
                proof {
                    assert(args.deep_view() =~~= spec_args(Encoding::Zstd));
                }
                Some(CodecCommand { program: slice_to_vec("zstd".as_bytes()), args })
            },
        }
    }
}

/// The set of encodings that a probe found backed by an installed program.
#[derive(Clone, Copy, Debug, PartialEq, Eq, Structural)]
pub struct EncodingSet {
    pub gzip: bool,
    pub compress: bool,
    pub deflate: bool,
    pub br: bool,
    pub zstd: bool,
}

impl EncodingSet {
    /// Whether the set holds `e`.
    pub open spec fn spec_contains(&self, e: Encoding) -> bool {
        match e {
            Encoding::Gzip => self.gzip,
            Encoding::Compress => self.compress,
            Encoding::Deflate => self.deflate,
            Encoding::Br => self.br,
            Encoding::Zstd => self.zstd,
        }
    }

    /// The empty set.
    pub fn none() -> (r: EncodingSet)
        ensures
            forall|e: Encoding| !r.spec_contains(e),
    {
        EncodingSet { gzip: false, compress: false, deflate: false, br: false, zstd: false }
    }

    /// This set with `e` added.
    pub fn with(self, e: Encoding) -> (r: EncodingSet)
        ensures
            r.spec_contains(e),
            forall|x: Encoding| x != e ==> r.spec_contains(x) == self.spec_contains(x),
    {
        match e {
            Encoding::Gzip => EncodingSet { gzip: true, ..self },
            Encoding::Compress => EncodingSet { compress: true, ..self },
            Encoding::Deflate => EncodingSet { deflate: true, ..self },
            Encoding::Br => EncodingSet { br: true, ..self },
            Encoding::Zstd => EncodingSet { zstd: true, ..self },
        }
    }

    /// Whether the set holds `e`.
    pub fn contains(&self, e: Encoding) -> (r: bool)
        ensures
            r == self.spec_contains(e),
    {
        match e {
            Encoding::Gzip => self.gzip,
            Encoding::Compress => self.compress,
            Encoding::Deflate => self.deflate,
            Encoding::Br => self.br,
            Encoding::Zstd => self.zstd,
        }
    }
}

/// The bytes of `s` from `from` on, split at line feeds; the line feed is
/// consumed but kept out of the pieces, and the run after the last line feed
/// is a piece of its own.
pub open spec fn spec_lines(s: Seq<u8>, from: int) -> Seq<Seq<u8>>
    decreases s.len() - from
    when 0 <= from <= s.len()
    via spec_lines_dec
{
    match spec_find_byte(s, from, 10) {
        None => seq![s.subrange(from, s.len() as int)],
        Some(i) => seq![s.subrange(from, i)] + spec_lines(s, i + 1),
    }
}

#[via_fn]
proof fn spec_lines_dec(s: Seq<u8>, from: int) {
    crate::text::lemma_find_byte(s, from, 10);
}

/// Splits `s` from `from` on at line feeds.
fn lines_from(s: &[u8], from: usize) -> (r: Vec<Vec<u8>>)
    requires
        from <= s@.len(),
    ensures
        r.deep_view() == spec_lines(s@, from as int),
    decreases s@.len() - from,
{
    let n = s.len();
    match find_byte(s, from, 10) {
        None => {
            let mut v: Vec<Vec<u8>> = Vec::new();
            v.push(slice_to_vec(vstd::slice::slice_subrange(s, from, n)));
            proof {
                assert(v.deep_view() =~~= spec_lines(s@, from as int));
            }
            v
        },
        Some(i) => {
            let first = slice_to_vec(vstd::slice::slice_subrange(s, from, i));
            let mut rest = lines_from(s, i + 1);
            rest.insert(0, first);
            proof {
                assert(rest.deep_view() =~~= spec_lines(s@, from as int));
            }
            rest
        },
    }
}

/// A line of the probe's output reports an installed program: it has a `:`
/// separator, and what follows is neither blank nor an include-path false
/// positive.
pub open spec fn spec_line_supports(line: Seq<u8>) -> bool {
    match spec_find_byte(line, 0, 58) {
        None => false,
        Some(c) => {
            let path = line.subrange(c + 1, line.len() as int);
            !crate::text::ws_only(path) && !crate::text::contains_bytes(
                path,
                "include".spec_bytes(),
            )
        },
    }
}

/// Whether one line of the probe's output reports an installed program.
fn line_supports(line: &[u8]) -> (r: bool)
    ensures
        r == spec_line_supports(line@),
{
    let n = line.len();
    match find_byte(line, 0, 58) {
        None => false,
        Some(c) => {
            let path = vstd::slice::slice_subrange(line, c + 1, n);
            let non_ws = crate::text::skip_whitespace(path, 0);
            proof {
                crate::text::lemma_skip_ws(path@, 0);
            }
            if non_ws == path.len() {
                return false;
            }
            !crate::text::contains_sub(path, "include".as_bytes())
        },
    }
}

/// The encodings whose external program the probe queries, in order: those
/// with a configured program.
pub open spec fn spec_probe_candidates() -> Seq<Encoding> {
    seq![Encoding::Gzip, Encoding::Br, Encoding::Zstd]
}

/// The encodings whose external program the probe queries, in order.
pub fn probe_candidates() -> (r: Vec<Encoding>)
    ensures
        r@ == spec_probe_candidates(),
{
    let mut v: Vec<Encoding> = Vec::new();
    v.push(Encoding::Gzip);
    v.push(Encoding::Br);
    v.push(Encoding::Zstd);
    proof {
        assert(v@ =~= spec_probe_candidates());
    }
    v
}

/// Candidate `e` is reported installed by the probe's output: the output
/// carries one line per candidate, in the candidates' order, and the
/// candidate's line names a real location. Missing lines leave their
/// candidates unsupported; encodings with no program are never supported.
pub open spec fn spec_probe_supports(out: Seq<u8>, e: Encoding) -> bool {
    let lines = spec_lines(out, 0);
    match e {
        Encoding::Gzip => lines.len() > 0 && spec_line_supports(lines[0]),
        Encoding::Compress => false,
        Encoding::Deflate => false,
        Encoding::Br => lines.len() > 1 && spec_line_supports(lines[1]),
        Encoding::Zstd => lines.len() > 2 && spec_line_supports(lines[2]),
    }
}

/// The set of encodings that the probe's output reports installed: the
/// output's lines are matched up with the probe's candidates, in order.
pub fn supported_from_probe(output: &[u8]) -> (r: EncodingSet)
    ensures
        forall|e: Encoding| r.spec_contains(e) == spec_probe_supports(output@, e),
{
    let lines = lines_from(output, 0);
    let mut sup = EncodingSet::none();
    proof {
        assert(lines.deep_view().len() == lines@.len());
    }
    if lines.len() > 0 && line_supports(lines[0].as_slice()) {
        sup = sup.with(Encoding::Gzip);
    }
    if lines.len() > 1 && line_supports(lines[1].as_slice()) {
        sup = sup.with(Encoding::Br);
    }
    if lines.len() > 2 && line_supports(lines[2].as_slice()) {
        sup = sup.with(Encoding::Zstd);
    }
    proof {
        assert(forall|i: int|
            0 <= i < lines@.len() ==> lines.deep_view()[i] == lines@[i]@);
    }
    sup
}

} // verus!
