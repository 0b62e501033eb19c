//! Canonical asset identifiers: slash-normalized relative paths that name
//! one syncable file inside a project, together with the asset category
//! their file extension maps to.

use vstd::prelude::*;

use crate::strutil::{
    ascii_lower, find_last_char, lemma_find_last_props, push_char, spec_ascii_lower,
    spec_find_last, spec_is_prefix, str_eq,
};

verus! {

/// Replaces every backslash path separator with `/`, so that asset
/// identifiers are platform-independent.
pub open spec fn spec_replace_slashes(s: Seq<char>) -> Seq<char> {
    s.map_values(|c: char| if c == '\\' { '/' } else { c })
}

/// Normalizes a path string to use `/` as its only separator.
pub fn replace_slashes(s: &str) -> (r: String)
    ensures
        r@ == spec_replace_slashes(s@),
{
    let mut r = String::new();
    let n = s.unicode_len();
    proof {
        assert(spec_replace_slashes(s@.take(0)) =~= Seq::<char>::empty());
    }
    for i in 0..n
        invariant
            n == s@.len(),
            r@ == spec_replace_slashes(s@.take(i as int)),
    {
        let c = s.get_char(i);
        if c == '\\' {
            r.append("/");
        } else {
            let one = s.substring_char(i, i + 1);
            r.append(one);
        }
        proof {
            reveal_strlit("/");
            assert("/"@ =~= seq!['/']);
            assert(s@.subrange(i as int, i + 1) =~= seq![s@[i as int]]);
            assert(r@ =~= spec_replace_slashes(s@.take(i as int)).push(
                if s@[i as int] == '\\' {
                    '/'
                } else {
                    s@[i as int]
                },
            ));
            assert(spec_replace_slashes(s@.take(i + 1)) =~= spec_replace_slashes(
                s@.take(i as int),
            ).push(if s@[i as int] == '\\' {
                '/'
            } else {
                s@[i as int]
            }));
        }
    }
    proof {
        assert(s@.take(n as int) =~= s@);
    }
    r
}

/// The categories of asset files a sync target accepts, determined by file
/// extension.
#[derive(Clone, Copy, Debug, PartialEq, Eq, Structural)]
pub enum AssetType {
    AudioMp3,
    AudioOgg,
    AudioFlac,
    AudioWav,
    DecalPng,
    DecalJpeg,
    DecalBmp,
    DecalTga,
    ModelFbx,
}

/// The asset category a file extension maps to, compared without regard to
/// ASCII case; `None` for unsupported extensions.
pub open spec fn spec_asset_type_of_ext(ext: Seq<char>) -> Option<AssetType> {
    let l = spec_ascii_lower(ext);
    if l == "mp3"@ {
        Some(AssetType::AudioMp3)
    } else if l == "ogg"@ {
        Some(AssetType::AudioOgg)
    } else if l == "flac"@ {
        Some(AssetType::AudioFlac)
    } else if l == "wav"@ {
        Some(AssetType::AudioWav)
    } else if l == "png"@ {
        Some(AssetType::DecalPng)
    } else if l == "jpg"@ {
        Some(AssetType::DecalJpeg)
    } else if l == "jpeg"@ {
        Some(AssetType::DecalJpeg)
    } else if l == "bmp"@ {
        Some(AssetType::DecalBmp)
    } else if l == "tga"@ {
        Some(AssetType::DecalTga)
    } else if l == "fbx"@ {
        Some(AssetType::ModelFbx)
    } else {
        None
    }
}

/// Maps a file extension to its asset category.
pub fn asset_type_of_ext(ext: &str) -> (r: Option<AssetType>)
    ensures
        r == spec_asset_type_of_ext(ext@),
{
    let l = ascii_lower(ext);
    let ls = l.as_str();
    if str_eq(ls, "mp3") {
        Some(AssetType::AudioMp3)
    } else if str_eq(ls, "ogg") {
        Some(AssetType::AudioOgg)
    } else if str_eq(ls, "flac") {
        Some(AssetType::AudioFlac)
    } else if str_eq(ls, "wav") {
        Some(AssetType::AudioWav)
    } else if str_eq(ls, "png") {
        Some(AssetType::DecalPng)
    } else if str_eq(ls, "jpg") {
        Some(AssetType::DecalJpeg)
    } else if str_eq(ls, "jpeg") {
        Some(AssetType::DecalJpeg)
    } else if str_eq(ls, "bmp") {
        Some(AssetType::DecalBmp)
    } else if str_eq(ls, "tga") {
        Some(AssetType::DecalTga)
    } else if str_eq(ls, "fbx") {
        Some(AssetType::ModelFbx)
    } else {
        None
    }
}

/// True of the decal (image) categories, which need an extra id-remapping
/// step after a remote upload.
pub open spec fn spec_is_decal(t: AssetType) -> bool {
    t == AssetType::DecalPng || t == AssetType::DecalJpeg || t == AssetType::DecalBmp || t
        == AssetType::DecalTga
}

/// Tests whether an asset category is a decal.
pub fn is_decal(t: AssetType) -> (r: bool)
    ensures
        r == spec_is_decal(t),
{
    match t {
        AssetType::DecalPng | AssetType::DecalJpeg | AssetType::DecalBmp | AssetType::DecalTga
            => true,
        _ => false,
    }
}

/// The error returned when a file's extension maps to no asset category.
#[derive(Clone, Copy, Debug, PartialEq, Eq, Structural)]
pub enum IdentError {
    UnsupportedExtension,
}

/// The last `/`-separated component of an ident.
pub open spec fn spec_last_component(s: Seq<char>) -> Seq<char> {
    match spec_find_last(s, '/') {
        Some(i) => s.skip(i + 1),
        None => s,
    }
}

/// The extension of an ident's last component: the part after its last `.`,
/// provided that dot is not the component's first character.
pub open spec fn spec_extension(s: Seq<char>) -> Option<Seq<char>> {
    let name = spec_last_component(s);
    match spec_find_last(name, '.') {
        Some(j) => if j > 0 {
            Some(name.skip(j + 1))
        } else {
            None
        },
        None => None,
    }
}

/// The extension, or the empty string where there is none.
pub open spec fn spec_ext_or_empty(s: Seq<char>) -> Seq<char> {
    match spec_extension(s) {
        Some(e) => e,
        None => Seq::empty(),
    }
}

/// The stem of the last component: the part before the extension.
pub open spec fn spec_stem(name: Seq<char>) -> Seq<char> {
    match spec_find_last(name, '.') {
        Some(j) => if j > 0 {
            name.take(j)
        } else {
            name
        },
        None => name,
    }
}

/// The directory part of an ident, up to and including the last `/`; empty
/// where there is no `/`.
pub open spec fn spec_dir_prefix(s: Seq<char>) -> Seq<char> {
    match spec_find_last(s, '/') {
        Some(i) => s.take(i + 1),
        None => Seq::empty(),
    }
}

/// The ident with a cache-busting token spliced into its file name: the
/// stem, a `-`, the token, a `.`, and the original extension (empty when
/// the name had none).
pub open spec fn spec_cache_busted(s: Seq<char>, cb: Seq<char>) -> Seq<char> {
    spec_dir_prefix(s) + spec_stem(spec_last_component(s)) + seq!['-'] + cb + seq!['.']
        + spec_ext_or_empty(s)
}

/// Strips every leading `/` or `\` from a relative path.
pub open spec fn spec_strip_leading_seps(s: Seq<char>) -> Seq<char>
    decreases s.len(),
{
    if s.len() > 0 && (s[0] == '/' || s[0] == '\\') {
        spec_strip_leading_seps(s.skip(1))
    } else {
        s
    }
}

/// The canonical ident text for a file at `path` under the project root
/// `root`: the relative part, leading separators removed, slash-normalized.
pub open spec fn spec_normalized_ident(root: Seq<char>, path: Seq<char>) -> Seq<char> {
    spec_replace_slashes(spec_strip_leading_seps(path.skip(root.len() as int)))
}

/// True iff an ident's extension maps to an asset category; every
/// constructed `AssetIdent` satisfies this.
pub open spec fn spec_supported_ident(s: Seq<char>) -> bool {
    spec_asset_type_of_ext(spec_ext_or_empty(s)) is Some
}

/// A path to an asset inside a project: relative to the project root,
/// always `/`-separated, with an extension that maps to an asset category.
#[derive(Clone, Debug)]
pub struct AssetIdent {
    text: String,
}

impl View for AssetIdent {
    type V = Seq<char>;

    closed spec fn view(&self) -> Seq<char> {
        self.text@
    }
}

impl AssetIdent {
    /// Every ident built by `from_paths` supports an asset category.
    pub open spec fn wf(&self) -> bool {
        spec_supported_ident(self@)
    }

    /// Builds the ident for the file at `asset_path` inside the project
    /// rooted at `root_path`; fails iff the file's extension maps to no
    /// asset category.
    pub fn from_paths(root_path: &str, asset_path: &str) -> (r: Result<AssetIdent, IdentError>)
        requires
            spec_is_prefix(asset_path@, root_path@),
        ensures
            match r {
                Ok(id) => id@ == spec_normalized_ident(root_path@, asset_path@) && id.wf(),
                Err(e) => e == IdentError::UnsupportedExtension && !spec_supported_ident(
                    spec_normalized_ident(root_path@, asset_path@),
                ),
            },
    {
        let rn = root_path.unicode_len();
        let an = asset_path.unicode_len();
        let rel = asset_path.substring_char(rn, an);
        proof {
            assert(rel@ =~= asset_path@.skip(rn as int));
        }
        let reln = rel.unicode_len();
        let mut k: usize = 0;
        proof {
            assert(rel@.skip(0) =~= rel@);
        }
        loop
            invariant
                reln == rel@.len(),
                k <= reln,
                spec_strip_leading_seps(rel@) == spec_strip_leading_seps(rel@.skip(k as int)),
            ensures
                k <= reln,
                spec_strip_leading_seps(rel@) == spec_strip_leading_seps(rel@.skip(k as int)),
                k == reln || (rel@[k as int] != '/' && rel@[k as int] != '\\'),
            decreases reln - k,
        {
            if k == reln {
                break ;
            }
            let c = rel.get_char(k);
            if c != '/' && c != '\\' {
                break ;
            }
            proof {
                assert(rel@.skip(k as int)[0] == rel@[k as int]);
                assert(rel@.skip(k as int).skip(1) =~= rel@.skip(k + 1));
            }
            k = k + 1;
        }
        let stripped = rel.substring_char(k, reln);
        proof {
            assert(stripped@ =~= rel@.skip(k as int));
            if k < reln {
                assert(spec_strip_leading_seps(rel@.skip(k as int)) == rel@.skip(k as int));
            } else {
                assert(rel@.skip(k as int) =~= Seq::<char>::empty());
            }
        }
        let displayed = replace_slashes(stripped);
        let ext = ext_of_str(displayed.as_str());
        let supported = match &ext {
            Some(e) => asset_type_of_ext(e.as_str()).is_some(),
            None => asset_type_of_ext("").is_some(),
        };
        proof {
            reveal_strlit("");
            assert(""@ =~= Seq::<char>::empty());
            assert(spec_ascii_lower(Seq::<char>::empty()) =~= Seq::<char>::empty());
            reveal_strlit("mp3");
            reveal_strlit("ogg");
            reveal_strlit("flac");
            reveal_strlit("wav");
            reveal_strlit("png");
            reveal_strlit("jpg");
            reveal_strlit("jpeg");
            reveal_strlit("bmp");
            reveal_strlit("tga");
            reveal_strlit("fbx");
        }
        if supported {
            Ok(AssetIdent { text: displayed })
        } else {
            Err(IdentError::UnsupportedExtension)
        }
    }

    /// The ident's text, always `/`-separated.
    pub fn as_str(&self) -> (r: &str)
        ensures
            r@ == self@,
    {
        self.text.as_str()
    }

    /// A copy of this ident.
    pub fn duplicate(&self) -> (r: AssetIdent)
        ensures
            r@ == self@,
    {
        AssetIdent { text: self.text.clone() }
    }

    /// The file name of this ident with a cache-busting token appended to
    /// its stem, so a fresh copy never collides with an older cached one.
    pub fn with_cache_bust(&self, cb: &str) -> (r: String)
        ensures
            r@ == spec_cache_busted(self@, cb@),
    {
        let s = self.text.as_str();
        let n = s.unicode_len();
        let (dir, name): (&str, &str) = match find_last_char(s, '/') {
            Some(i) => {
                proof {
                    lemma_find_last_props(s@, '/');
                }
                let d = s.substring_char(0, i + 1);
                let f = s.substring_char(i + 1, n);
                proof {
                    assert(d@ =~= s@.take(i + 1));
                    assert(f@ =~= s@.skip(i + 1));
                }
                (d, f)
            },
            None => ("", s),
        };
        proof {
            reveal_strlit("");
            assert(""@ =~= Seq::<char>::empty());
        }
        let nn = name.unicode_len();
        let (stem, ext): (&str, &str) = match find_last_char(name, '.') {
            Some(j) if j > 0 => {
                proof {
                    lemma_find_last_props(name@, '.');
                }
                let st = name.substring_char(0, j);
                let ex = name.substring_char(j + 1, nn);
                proof {
                    assert(st@ =~= name@.take(j as int));
                    assert(ex@ =~= name@.skip(j + 1));
                }
                (st, ex)
            },
            _ => (name, ""),
        };
        let mut r = String::new();
        r.append(dir);
        r.append(stem);
        push_char(&mut r, '-');
        r.append(cb);
        push_char(&mut r, '.');
        r.append(ext);
        proof {
            assert(r@ =~= spec_cache_busted(self@, cb@));
        }
        r
    }

    /// The last `/`-separated component; used as the display name of
    /// remote uploads.
    pub fn last_component(&self) -> (r: &str)
        ensures
            r@ == spec_last_component(self@),
    {
        let s = self.text.as_str();
        let n = s.unicode_len();
        match find_last_char(s, '/') {
            Some(i) => {
                proof {
                    lemma_find_last_props(s@, '/');
                }
                let f = s.substring_char(i + 1, n);
                proof {
                    assert(f@ =~= s@.skip(i + 1));
                }
                f
            },
            None => s,
        }
    }

    /// The extension of the ident's file name, if it has one.
    pub fn extension(&self) -> (r: Option<String>)
        ensures
            match r {
                Some(e) => spec_extension(self@) == Some(e@),
                None => spec_extension(self@) is None,
            },
    {
        ext_of_str(self.text.as_str())
    }

    /// The asset category this ident's extension maps to.
    pub fn asset_type(&self) -> (r: AssetType)
        requires
            self.wf(),
        ensures
            Some(r) == spec_asset_type_of_ext(spec_ext_or_empty(self@)),
    {
        let ext = ext_of_str(self.text.as_str());
        let t = match &ext {
            Some(e) => asset_type_of_ext(e.as_str()),
            None => asset_type_of_ext(""),
        };
        proof {
            reveal_strlit("");
            assert(""@ =~= Seq::<char>::empty());
        }
        t.unwrap()
    }
}

/// Computes the extension of an ident string.
fn ext_of_str(s: &str) -> (r: Option<String>)
    ensures
        match r {
            Some(e) => spec_extension(s@) == Some(e@),
            None => spec_extension(s@) is None,
        },
{
    let n = s.unicode_len();
    let name: &str = match find_last_char(s, '/') {
        Some(i) => {
            proof {
                lemma_find_last_props(s@, '/');
            }
            let f = s.substring_char(i + 1, n);
            proof {
                assert(f@ =~= s@.skip(i + 1));
            }
            f
        },
        None => s,
    };
    let nn = name.unicode_len();
    match find_last_char(name, '.') {
        Some(j) if j > 0 => {
            proof {
                lemma_find_last_props(name@, '.');
            }
            let ex = name.substring_char(j + 1, nn);
            proof {
                assert(ex@ =~= name@.skip(j + 1));
            }
            Some(ex.to_owned())
        },
        _ => None,
    }
}

} // verus!
