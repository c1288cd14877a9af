//! The text the music block shows: the playing medium's title, and for
//! chaptered media a decorated video/song pair. The player itself is
//! spoken to outside this crate; only the title-to-bar-text shaping is
//! here.

use vstd::prelude::*;

use crate::block::{BlockText, TextDecorations};
use crate::color::Color;
use crate::text::{chars_between, chars_to_string, push_char, str_to_chars};

verus! {

/// Titles longer than this are shortened outside the compact layer.
pub open spec fn trunc_limit() -> nat {
    22
}

/// How a title shows at `layer`: on the compact layer (zero), or when
/// it is short enough, unchanged with no ellipsis; otherwise cut to
/// three characters under the limit, with an ellipsis after it.
pub open spec fn spec_trunc(s: Seq<char>, layer: u16) -> (Seq<char>, Seq<char>) {
    if layer == 0 || s.len() <= trunc_limit() {
        (s, Seq::empty())
    } else {
        (s.take(trunc_limit() - 4), seq!['.', '.', '.'])
    }
}

/// Shortens a title for `layer`.
fn trunc(s: &str, layer: u16) -> (r: (String, String))
    ensures
        (r.0@, r.1@) == spec_trunc(s@, layer),
{
    let n = s.unicode_len();
    if layer == 0 || n <= 22 {
        let mut ellipsis = String::new();
        proof {
            assert(ellipsis@ =~= Seq::<char>::empty());
        }
        (s.to_owned(), ellipsis)
    } else {
        let chars = str_to_chars(s);
        let head = chars_between(&chars, 0, 18);
        proof {
            assert(head@ =~= s@.take(18));
        }
        let mut ellipsis = String::new();
        push_char(&mut ellipsis, '.');
        push_char(&mut ellipsis, '.');
        push_char(&mut ellipsis, '.');
        proof {
            assert(ellipsis@ =~= seq!['.', '.', '.']);
        }
        (chars_to_string(&head), ellipsis)
    }
}

/// What the music block's medium is called: its own title and, when the
/// medium has chapters, the playing chapter's.
#[derive(Debug, Clone)]
pub struct Title {
    pub media_title: Option<String>,
    pub chapter: Option<String>,
}

/// The four runs of a chaptered title: an accented `Video:` chip, the
/// shortened medium title, an accented `Song:` chip, the shortened
/// chapter title.
pub open spec fn spec_chaptered(
    video: Seq<char>,
    video_ellipsis: Seq<char>,
    song: Seq<char>,
    song_ellipsis: Seq<char>,
    accent: Color,
) -> Seq<(TextDecorations, Seq<char>)> {
    let chip = TextDecorations { bg: None, fg: Some(accent), underline: None };
    let none = TextDecorations { bg: None, fg: None, underline: None };
    seq![
        (chip, "Video:"@),
        (none, seq![' '] + video + video_ellipsis + seq![' ']),
        (chip, "Song:"@),
        (none, seq![' '] + song + song_ellipsis + seq![' ']),
    ]
}

/// The runs of `runs` as (decorations, characters) pairs.
pub open spec fn runs_view(runs: Seq<BlockText>) -> Seq<(TextDecorations, Seq<char>)> {
    Seq::new(runs.len(), |i: int| (runs[i].decorations, runs[i].text@))
}

impl Title {
    /// A medium with a plain title and no chapters.
    pub fn simple(title: String) -> (r: Title)
        ensures
            r.media_title == Some(title),
            r.chapter is None,
    {
        Title { media_title: Some(title), chapter: None }
    }

    /// A chapter change on a medium whose own title is not yet known.
    pub fn with_chapter(chapter: String) -> (r: Title)
        ensures
            r.media_title is None,
            r.chapter == Some(chapter),
    {
        Title { media_title: None, chapter: Some(chapter) }
    }

    /// Appends this title's bar text to `blocks`: nothing while no
    /// medium title is known; the shortened title alone for plain
    /// media; for chaptered media the accented video/song pair.
    pub fn to_decorated_text(&self, blocks: &mut Vec<BlockText>, layer: u16, accent: Color)
        ensures
            self.media_title is None ==> final(blocks)@ == old(blocks)@,
            self.media_title matches Some(media) ==> (self.chapter is None ==> {
                let (body, ellipsis) = spec_trunc(media@, layer);
                &&& final(blocks)@.len() == old(blocks)@.len() + 1
                &&& runs_view(final(blocks)@) =~~= runs_view(old(blocks)@).push(
                    (
                        TextDecorations { bg: None, fg: None, underline: None },
                        body + ellipsis,
                    ),
                )
            }),
            self.media_title matches Some(media) ==> (self.chapter matches Some(chapter) ==> {
                let (video, video_ellipsis) = spec_trunc(media@, layer);
                let (song, song_ellipsis) = spec_trunc(chapter@, layer);
                runs_view(final(blocks)@) =~~= runs_view(old(blocks)@) + spec_chaptered(
                    video,
                    video_ellipsis,
                    song,
                    song_ellipsis,
                    accent,
                )
            }),
    {
        let media = match &self.media_title {
            Option::Some(media) => media,
            Option::None => {
                return ;
            },
        };
        match &self.chapter {
            Option::Some(chapter) => {
                proof {
                    reveal_strlit("Video:");
                    reveal_strlit("Song:");
                }
                let chip = TextDecorations { bg: None, fg: Some(accent), underline: None };
                let (video, video_ellipsis) = trunc(media.as_str(), layer);
                let (song, song_ellipsis) = trunc(chapter.as_str(), layer);
                blocks.push(
                    BlockText { decorations: chip, text: String::from_str("Video:") },
                );
                let mut body = String::new();
                push_char(&mut body, ' ');
                body.append(video.as_str());
                body.append(video_ellipsis.as_str());
                push_char(&mut body, ' ');
                blocks.push(BlockText::plain(body));
                blocks.push(
                    BlockText { decorations: chip, text: String::from_str("Song:") },
                );
                let mut body = String::new();
                push_char(&mut body, ' ');
                body.append(song.as_str());
                body.append(song_ellipsis.as_str());
                push_char(&mut body, ' ');
                blocks.push(BlockText::plain(body));
            },
            Option::None => {
                let (body, ellipsis) = trunc(media.as_str(), layer);
                let mut text = body;
                text.append(ellipsis.as_str());
                blocks.push(BlockText::plain(text));
            },
        }
    }
}

} // verus!
