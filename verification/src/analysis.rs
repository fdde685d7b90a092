//! The qualities of the HLS items seen: finding them out, and choosing one.

use crate::hls::{
    parse_hls_playlist, playlist_of, ranked, sort_variants_highest_first, HlsError, HlsPlaylist,
    HlsPlaylistView,
};
use crate::lists::{change_first, each, find_in, find_where, first_where, maybe};
use crate::state::{
    copy_headers, variant_label, AppState, AppStateView, HeaderPair, HeaderPairView, HlsVariant,
    HlsVariantView, MediaItem, MediaItemView, MediaType,
};
use crate::text::{decimal, number, same_text};
use std::collections::VecDeque;
use vstd::prelude::*;

verus! {

/// Whether an item has the given identity.
pub open spec fn is_media(id: u128) -> spec_fn(MediaItemView) -> bool {
    |item: MediaItemView| item.id == id
}

/// Whether an item has the given identity and is an HLS stream.
pub open spec fn is_hls(id: u128) -> spec_fn(MediaItemView) -> bool {
    |item: MediaItemView| item.id == id && item.media_type == MediaType::Hls
}

fn find_media(detected: &VecDeque<MediaItem>, id: u128) -> (r: usize)
    ensures
        r == first_where(each(detected@), is_media(id)),
        r <= detected@.len(),
{
    let test = |one: &MediaItem| -> (r: bool)
        ensures
            r == is_media(id)(one@),
    {
        one.id == id
    };
    find_where(detected, test, Ghost(is_media(id)))
}

/// The address and the headers with which the playlist of an item is fetched: those of
/// the first HLS item with that identity.
pub open spec fn playlist_request(app: AppStateView, id: u128) -> Option<
    (Seq<char>, Seq<HeaderPairView>),
> {
    let at = first_where(app.detected, is_hls(id));
    if at < app.detected.len() {
        Some((app.detected[at].url, app.detected[at].headers))
    } else {
        None
    }
}

/// The address and the headers with which the playlist of an item is fetched.
pub fn hls_request(app: &AppState, id: u128) -> (r: Option<(String, Vec<HeaderPair>)>)
    ensures
        playlist_request(app@, id) == (match r {
            Some((url, headers)) => Some((url@, each(headers@))),
            None => None,
        }),
{
    let test = |one: &MediaItem| -> (r: bool)
        ensures
            r == is_hls(id)(one@),
    {
        one.id == id && one.media_type == MediaType::Hls
    };
    let at = find_where(&app.detected, test, Ghost(is_hls(id)));
    if at < app.detected.len() {
        let one = &app.detected[at];
        assert(app@.detected[at as int] == one@);
        Some((one.url.clone(), copy_headers(&one.headers)))
    } else {
        None
    }
}

/// The state with the first item of the given identity changed.
pub open spec fn with_media(
    app: AppStateView,
    id: u128,
    change: spec_fn(MediaItemView) -> MediaItemView,
) -> AppStateView {
    AppStateView { detected: change_first(app.detected, is_media(id), change), ..app }
}

/// An item with the given word on its qualities.
pub open spec fn remarked(message: Seq<char>) -> spec_fn(MediaItemView) -> MediaItemView {
    |item: MediaItemView| MediaItemView { hls_status: Some(message), ..item }
}

/// Sets the word on the qualities of an item.
pub fn update_hls_status(app: &mut AppState, id: u128, message: String)
    ensures
        final(app)@ == with_media(old(app)@, id, remarked(message@)),
{
    let at = find_media(&app.detected, id);
    if let Some(item) = app.detected.remove(at) {
        let mut item = item;
        item.hls_status = Some(message);
        app.detected.insert(at, item);
    }
    proof {
        assert(final(app)@.detected =~= with_media(
            old(app)@,
            id,
            remarked(message@),
        ).detected);
    }
}

/// Notes that the qualities of an item are being found out.
pub fn begin_analysis(app: &mut AppState, id: u128)
    ensures
        final(app)@ == with_media(old(app)@, id, remarked("正在分析 HLS 清晰度"@)),
{
    update_hls_status(app, id, "正在分析 HLS 清晰度".to_string());
}

/// Notes that the qualities of an item could not be found out, and why.
pub fn fail_analysis(app: &mut AppState, id: u128, reason: &str)
    ensures
        final(app)@ == with_media(
            old(app)@,
            id,
            remarked("HLS 清晰度分析失败: "@ + reason@),
        ),
{
    let mut message = "HLS 清晰度分析失败: ".to_string();
    message.append(reason);
    update_hls_status(app, id, message);
}

/// Notes that finding out the qualities of an item could not begin, and why.
pub fn refuse_analysis(app: &mut AppState, id: u128, reason: &str)
    ensures
        final(app)@ == with_media(old(app)@, id, remarked("无法启动 HLS 分析: "@ + reason@)),
{
    let mut message = "无法启动 HLS 分析: ".to_string();
    message.append(reason);
    update_hls_status(app, id, message);
}

/// An item with the given qualities, highest first, and the highest chosen.
pub open spec fn offering(variants: Seq<HlsVariantView>) -> spec_fn(MediaItemView) -> MediaItemView {
    |item: MediaItemView|
        MediaItemView {
            hls_variants: ranked(variants),
            selected_hls_variant_url: Some(ranked(variants)[0].url),
            hls_status: Some("已发现 "@ + decimal(variants.len()) + " 个清晰度，默认最高码率"@),
            ..item
        }
}

/// The state after the playlist of an item was read: the item offers its qualities, if it
/// has any.
pub open spec fn analyzed(app: AppStateView, id: u128, playlist: HlsPlaylistView) -> AppStateView {
    if playlist.variants.len() == 0 {
        with_media(app, id, remarked("单清晰度 HLS"@))
    } else {
        with_media(app, id, offering(playlist.variants))
    }
}

/// Takes in what the playlist of an item says.
pub fn finish_analysis(app: &mut AppState, id: u128, playlist: HlsPlaylist)
    ensures
        final(app)@ == analyzed(old(app)@, id, playlist@),
{
    let mut variants = playlist.variants;
    if variants.len() == 0 {
        update_hls_status(app, id, "单清晰度 HLS".to_string());
        return;
    }
    let ghost listed = each(variants@);
    let count: u64 = variants.len() as u64;
    sort_variants_highest_first(variants.as_mut_slice());
    proof {
        crate::hls::lemma_ranked_len(listed);
    }
    let selected = variants[0].url.clone();
    let mut message = "已发现 ".to_string();
    message.append(number(count).as_str());
    message.append(" 个清晰度，默认最高码率");
    let at = find_media(&app.detected, id);
    if let Some(item) = app.detected.remove(at) {
        let mut item = item;
        item.hls_variants = variants;
        item.selected_hls_variant_url = Some(selected);
        item.hls_status = Some(message);
        proof {
            assert(selected@ == ranked(listed)[0].url);
            assert(item@ =~= offering(listed)(old(app)@.detected[at as int]));
        }
        app.detected.insert(at, item);
    }
    proof {
        assert(final(app)@.detected =~= with_media(old(app)@, id, offering(listed)).detected);
    }
}

/// Takes in the text of the playlist of an item, fetched from `url`.
pub fn analyze_playlist(app: &mut AppState, id: u128, url: &str, text: &str) -> (r: Result<
    (),
    HlsError,
>)
    ensures
        match playlist_of(url@, text@) {
            Ok(playlist) => r is Ok && final(app)@ == analyzed(old(app)@, id, playlist),
            Err(err) => r is Err && r->Err_0@ == err && final(app)@ == old(app)@,
        },
{
    match parse_hls_playlist(url, text) {
        Ok(playlist) => {
            finish_analysis(app, id, playlist);
            Ok(())
        },
        Err(err) => Err(err),
    }
}

/// An item with the quality at the given address chosen.
pub open spec fn choosing(url: Seq<char>) -> spec_fn(MediaItemView) -> MediaItemView {
    |item: MediaItemView|
        MediaItemView {
            selected_hls_variant_url: Some(url),
            hls_status: Some("已切换清晰度"@),
            ..item
        }
}

/// Chooses a quality of an item.
pub fn select_variant(app: &mut AppState, id: u128, url: String)
    ensures
        final(app)@ == with_media(old(app)@, id, choosing(url@)),
{
    let at = find_media(&app.detected, id);
    if let Some(item) = app.detected.remove(at) {
        let mut item = item;
        item.selected_hls_variant_url = Some(url);
        item.hls_status = Some("已切换清晰度".to_string());
        app.detected.insert(at, item);
    }
    proof {
        assert(final(app)@.detected =~= with_media(old(app)@, id, choosing(url@)).detected);
    }
}

/// The address of the quality that stands chosen: the one chosen, else the first.
pub open spec fn chosen_url(item: MediaItemView) -> Option<Seq<char>> {
    if item.selected_hls_variant_url is Some {
        item.selected_hls_variant_url
    } else if item.hls_variants.len() > 0 {
        Some(item.hls_variants[0].url)
    } else {
        None
    }
}

/// Whether a quality is at the given address.
pub open spec fn is_at(url: Seq<char>) -> spec_fn(HlsVariantView) -> bool {
    |variant: HlsVariantView| variant.url == url
}

/// The name shown for the chosen quality of an item.
pub open spec fn chosen_label(item: MediaItemView) -> Seq<char> {
    match chosen_url(item) {
        Some(url) => {
            let at = first_where(item.hls_variants, is_at(url));
            if at < item.hls_variants.len() {
                variant_label(item.hls_variants[at])
            } else {
                "自动最高码率"@
            }
        },
        None => "自动最高码率"@,
    }
}

/// The qualities of an item as they are offered for choice.
pub struct QualityChoice {
    pub selected_url: Option<String>,
    pub selected_label: String,
    pub labels: Vec<String>,
}

/// What is shown of an item's qualities: a word where none are known, else the choice.
pub enum QualityDisplay {
    Status(String),
    Choice(QualityChoice),
}

/// The names of qualities.
pub open spec fn labels_of(variants: Seq<HlsVariantView>) -> Seq<Seq<char>> {
    Seq::new(variants.len(), |i: int| variant_label(variants[i]))
}

fn variant_labels(variants: &Vec<HlsVariant>) -> (r: Vec<String>)
    ensures
        each(r@) == labels_of(each(variants@)),
{
    let mut out: Vec<String> = Vec::new();
    let mut i: usize = 0;
    while i < variants.len()
        invariant
            i <= variants.len(),
            each(out@) == labels_of(each(variants@).take(i as int)),
        decreases variants.len() - i,
    {
        let ghost was = each(out@);
        let label = variants[i].label();
        out.push(label);
        proof {
            assert(each(variants@)[i as int] == variants@[i as int]@);
            assert(each(out@) =~= was.push(label@));
            assert(each(out@) =~= labels_of(each(variants@).take(i + 1)));
        }
        i = i + 1;
    }
    proof {
        assert(each(variants@).take(variants.len() as int) =~= each(variants@));
    }
    out
}

fn label_at(variants: &Vec<HlsVariant>, url: &str) -> (r: String)
    ensures
        r@ == ({
            let at = first_where(each(variants@), is_at(url@));
            if at < variants@.len() {
                variant_label(each(variants@)[at])
            } else {
                "自动最高码率"@
            }
        }),
{
    let test = |one: &HlsVariant| -> (r: bool)
        ensures
            r == is_at(url@)(one@),
    {
        same_text(one.url.as_str(), url)
    };
    let at = find_in(variants, test, Ghost(is_at(url@)));
    if at < variants.len() {
        assert(each(variants@)[at as int] == variants@[at as int]@);
        variants[at].label()
    } else {
        "自动最高码率".to_string()
    }
}

/// What is shown of an item's qualities.
pub fn quality_display(item: &MediaItem) -> (r: QualityDisplay)
    ensures
        match r {
            QualityDisplay::Status(text) => {
                &&& item@.hls_variants.len() == 0
                &&& text@ == (match item@.hls_status {
                    Some(status) => status,
                    None => "正在等待 HLS 清晰度分析"@,
                })
            },
            QualityDisplay::Choice(choice) => {
                &&& item@.hls_variants.len() > 0
                &&& maybe(choice.selected_url) == chosen_url(item@)
                &&& choice.selected_label@ == chosen_label(item@)
                &&& each(choice.labels@) == labels_of(item@.hls_variants)
            },
        },
{
    if item.hls_variants.len() == 0 {
        return QualityDisplay::Status(
            match &item.hls_status {
                Some(status) => status.clone(),
                None => "正在等待 HLS 清晰度分析".to_string(),
            },
        );
    }
    let url = match &item.selected_hls_variant_url {
        Some(url) => url.clone(),
        None => item.hls_variants[0].url.clone(),
    };
    let selected_label = label_at(&item.hls_variants, url.as_str());
    let labels = variant_labels(&item.hls_variants);
    QualityDisplay::Choice(QualityChoice { selected_url: Some(url), selected_label, labels })
}

} // verus!
