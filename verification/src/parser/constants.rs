//! The bytes and byte strings that the tokenizer looks for.

use vstd::prelude::*;

verus! {

/// The byte `<`.
pub const LESS: u8 = 0x3c;

/// The byte `>`.
pub const GREATER: u8 = 0x3e;

/// The byte `/`.
pub const SLASH: u8 = 0x2f;

/// The byte `!`.
pub const BANG: u8 = 0x21;

/// The byte `=`.
pub const EQUALS: u8 = 0x3d;

/// The byte `"`.
pub const DOUBLE_QUOTE: u8 = 0x22;

/// The byte `'`.
pub const SINGLE_QUOTE: u8 = 0x27;

/// The space character.
pub const SPACE: u8 = 0x20;

/// The line feed character.
pub const NEWLINE: u8 = 0x0a;

/// The two dashes that open a comment after `<!`.
pub const COMMENT: [u8; 2] = [0x2d, 0x2d];

/// The three bytes `-->` that close a comment.
pub const COMMENT_END: [u8; 3] = [0x2d, 0x2d, 0x3e];

/// The attribute name `id`.
pub const ID_ATTR: [u8; 2] = [0x69, 0x64];

/// The attribute name `class`.
pub const CLASS_ATTR: [u8; 5] = [0x63, 0x6c, 0x61, 0x73, 0x73];

/// The word `doctype`, in lower case.
pub const DOCTYPE: [u8; 7] = [0x64, 0x6f, 0x63, 0x74, 0x79, 0x70, 0x65];

/// The word `html`, in lower case.
pub const HTML: [u8; 4] = [0x68, 0x74, 0x6d, 0x6c];

/// Whether `name` is one of the tags that the tokenizer never gives children: `area`, `base`,
/// `br`, `col`, `embed`, `hr`, `img`, `input`, `keygen`, `link`, `meta`, `param`, `source`,
/// `track`, `wbr`.
pub open spec fn spec_is_void_tag(name: Seq<u8>) -> bool {
    ||| name == seq![0x61u8, 0x72, 0x65, 0x61]
    ||| name == seq![0x62u8, 0x61, 0x73, 0x65]
    ||| name == seq![0x62u8, 0x72]
    ||| name == seq![0x63u8, 0x6f, 0x6c]
    ||| name == seq![0x65u8, 0x6d, 0x62, 0x65, 0x64]
    ||| name == seq![0x68u8, 0x72]
    ||| name == seq![0x69u8, 0x6d, 0x67]
    ||| name == seq![0x69u8, 0x6e, 0x70, 0x75, 0x74]
    ||| name == seq![0x6bu8, 0x65, 0x79, 0x67, 0x65, 0x6e]
    ||| name == seq![0x6cu8, 0x69, 0x6e, 0x6b]
    ||| name == seq![0x6du8, 0x65, 0x74, 0x61]
    ||| name == seq![0x70u8, 0x61, 0x72, 0x61, 0x6d]
    ||| name == seq![0x73u8, 0x6f, 0x75, 0x72, 0x63, 0x65]
    ||| name == seq![0x74u8, 0x72, 0x61, 0x63, 0x6b]
    ||| name == seq![0x77u8, 0x62, 0x72]
}

/// Whether `a` holds exactly the bytes of `b`.
pub fn is_word<const N: usize>(a: &[u8], b: [u8; N]) -> (r: bool)
    ensures
        r == (a@ == b@),
{
    if a.len() != N {
        return false;
    }
    let mut i: usize = 0;
    while i < N
        invariant
            i <= N,
            a.len() == N,
            forall|j: int| 0 <= j < i ==> a@[j] == b@[j],
        decreases N - i,
    {
        if a[i] != b[i] {
            return false;
        }
        i += 1;
    }
    assert(a@ =~= b@);
    true
}

/// Checks whether `name` is a void tag.
pub fn is_void_tag(name: &[u8]) -> (r: bool)
    ensures
        r == spec_is_void_tag(name@),
{
    let r = is_word(name, [0x61u8, 0x72, 0x65, 0x61]) || is_word(name, [0x62u8, 0x61, 0x73, 0x65])
        || is_word(name, [0x62u8, 0x72]) || is_word(name, [0x63u8, 0x6f, 0x6c]) || is_word(
        name,
        [0x65u8, 0x6d, 0x62, 0x65, 0x64],
    ) || is_word(name, [0x68u8, 0x72]) || is_word(name, [0x69u8, 0x6d, 0x67]) || is_word(
        name,
        [0x69u8, 0x6e, 0x70, 0x75, 0x74],
    ) || is_word(name, [0x6bu8, 0x65, 0x79, 0x67, 0x65, 0x6e]) || is_word(
        name,
        [0x6cu8, 0x69, 0x6e, 0x6b],
    ) || is_word(name, [0x6du8, 0x65, 0x74, 0x61]) || is_word(
        name,
        [0x70u8, 0x61, 0x72, 0x61, 0x6d],
    ) || is_word(name, [0x73u8, 0x6f, 0x75, 0x72, 0x63, 0x65]) || is_word(
        name,
        [0x74u8, 0x72, 0x61, 0x63, 0x6b],
    ) || is_word(name, [0x77u8, 0x62, 0x72]);
    proof {
        assert([0x61u8, 0x72, 0x65, 0x61]@ =~= seq![0x61u8, 0x72, 0x65, 0x61]);
        assert([0x62u8, 0x61, 0x73, 0x65]@ =~= seq![0x62u8, 0x61, 0x73, 0x65]);
        assert([0x62u8, 0x72]@ =~= seq![0x62u8, 0x72]);
        assert([0x63u8, 0x6f, 0x6c]@ =~= seq![0x63u8, 0x6f, 0x6c]);
        assert([0x65u8, 0x6d, 0x62, 0x65, 0x64]@ =~= seq![0x65u8, 0x6d, 0x62, 0x65, 0x64]);
        assert([0x68u8, 0x72]@ =~= seq![0x68u8, 0x72]);
        assert([0x69u8, 0x6d, 0x67]@ =~= seq![0x69u8, 0x6d, 0x67]);
        assert([0x69u8, 0x6e, 0x70, 0x75, 0x74]@ =~= seq![0x69u8, 0x6e, 0x70, 0x75, 0x74]);
        assert([0x6bu8, 0x65, 0x79, 0x67, 0x65, 0x6e]@ =~= seq![0x6bu8, 0x65, 0x79, 0x67, 0x65, 0x6e]);
        assert([0x6cu8, 0x69, 0x6e, 0x6b]@ =~= seq![0x6cu8, 0x69, 0x6e, 0x6b]);
        assert([0x6du8, 0x65, 0x74, 0x61]@ =~= seq![0x6du8, 0x65, 0x74, 0x61]);
        assert([0x70u8, 0x61, 0x72, 0x61, 0x6d]@ =~= seq![0x70u8, 0x61, 0x72, 0x61, 0x6d]);
        assert([0x73u8, 0x6f, 0x75, 0x72, 0x63, 0x65]@ =~= seq![0x73u8, 0x6f, 0x75, 0x72, 0x63, 0x65]);
        assert([0x74u8, 0x72, 0x61, 0x63, 0x6b]@ =~= seq![0x74u8, 0x72, 0x61, 0x63, 0x6b]);
        assert([0x77u8, 0x62, 0x72]@ =~= seq![0x77u8, 0x62, 0x72]);
    }
    r
}

} // verus!
