//! Frame geometry, subtitle timeline and the ffmpeg argument lists of the
//! compose stage.
use vstd::prelude::*;
use crate::model::ScriptShot;
use crate::text::{
    blank, chars_of, dec, dec_padded, is_blank, join, push_dec, push_dec_padded, push_str,
    push_string, str_eq, strs, trim, trimmed,
};

verus! {

// ---------------------------------------------------------------------------
// Aspect-ratio presets
// ---------------------------------------------------------------------------

/// Compose resolution of each aspect-ratio preset.
pub open spec fn compose_dims(r: Seq<char>) -> Option<(u32, u32)> {
    if r == "16:9"@ {
        Some((1920u32, 1080u32))
    } else if r == "9:16"@ {
        Some((1080u32, 1920u32))
    } else if r == "2.39:1"@ {
        Some((2048u32, 858u32))
    } else if r == "1.85:1"@ {
        Some((1998u32, 1080u32))
    } else if r == "1:1"@ {
        Some((1080u32, 1080u32))
    } else if r == "4:3"@ {
        Some((1440u32, 1080u32))
    } else {
        None
    }
}

/// Key-frame image size of each aspect-ratio preset.
pub open spec fn keyframe_dims(r: Seq<char>) -> Option<(u32, u32)> {
    if r == "16:9"@ {
        Some((1272u32, 720u32))
    } else if r == "9:16"@ {
        Some((720u32, 1272u32))
    } else if r == "2.39:1"@ {
        Some((1472u32, 616u32))
    } else if r == "1.85:1"@ {
        Some((1304u32, 704u32))
    } else if r == "1:1"@ {
        Some((720u32, 720u32))
    } else if r == "4:3"@ {
        Some((960u32, 720u32))
    } else {
        None
    }
}

/// Compose resolution (width, height) of an aspect ratio; `None` outside the
/// six presets.
pub fn ratio_dims(ratio: &str) -> (r: Option<(u32, u32)>)
    ensures
        r == compose_dims(ratio@),
{
    if str_eq(ratio, "16:9") {
        Some((1920, 1080))
    } else if str_eq(ratio, "9:16") {
        Some((1080, 1920))
    } else if str_eq(ratio, "2.39:1") {
        Some((2048, 858))
    } else if str_eq(ratio, "1.85:1") {
        Some((1998, 1080))
    } else if str_eq(ratio, "1:1") {
        Some((1080, 1080))
    } else if str_eq(ratio, "4:3") {
        Some((1440, 1080))
    } else {
        None
    }
}

/// Key-frame image size (width, height) of an aspect ratio; `None` outside
/// the six presets.
pub fn image_dims(ratio: &str) -> (r: Option<(u32, u32)>)
    ensures
        r == keyframe_dims(ratio@),
{
    if str_eq(ratio, "16:9") {
        Some((1272, 720))
    } else if str_eq(ratio, "9:16") {
        Some((720, 1272))
    } else if str_eq(ratio, "2.39:1") {
        Some((1472, 616))
    } else if str_eq(ratio, "1.85:1") {
        Some((1304, 704))
    } else if str_eq(ratio, "1:1") {
        Some((720, 720))
    } else if str_eq(ratio, "4:3") {
        Some((960, 720))
    } else {
        None
    }
}

/// The two preset tables accept the same ratios; compose sizes are even
/// (yuv420p) and key-frame sizes are positive multiples of 8.
pub proof fn law_ratio_presets(r: Seq<char>)
    ensures
        compose_dims(r) is Some <==> keyframe_dims(r) is Some,
        compose_dims(r) matches Some((w, h)) ==> w % 2 == 0 && h % 2 == 0 && w > 0 && h > 0,
        keyframe_dims(r) matches Some((w, h)) ==> w % 8 == 0 && h % 8 == 0 && w > 0 && h > 0,
{
}

/// The key frame of a preset has the orientation of its compose size
/// (portrait, landscape or square alike) and, within one percent, its aspect;
/// the portrait preset `9:16` is the landscape preset `16:9` turned on its
/// side, in both tables.
pub proof fn law_keyframe_follows_compose(r: Seq<char>)
    ensures
        compose_dims(r) matches Some((cw, ch)) ==> keyframe_dims(r) matches Some((kw, kh)) && (kw < kh) == (cw
            < ch) && (kw > kh) == (cw > ch) && 100 * (if kw * ch >= kh * cw {
            kw * ch - kh * cw
        } else {
            kh * cw - kw * ch
        }) <= kh * cw,
        compose_dims("9:16"@) matches Some((w, h)) && compose_dims("16:9"@) == Some((h, w)),
        keyframe_dims("9:16"@) matches Some((w, h)) && keyframe_dims("16:9"@) == Some((h, w)),
        keyframe_dims("9:16"@) matches Some((w, h)) && w < h,
{
    reveal_strlit("9:16");
    reveal_strlit("16:9");
    assert("9:16"@[0] != "16:9"@[0]);
}

// ---------------------------------------------------------------------------
// Subtitles
// ---------------------------------------------------------------------------

/// SRT timestamp `HH:MM:SS,mmm` of a millisecond offset.
pub open spec fn srt_ts(ms: nat) -> Seq<char> {
    dec_padded(ms / 3_600_000, 2) + ":"@ + dec_padded((ms % 3_600_000) / 60_000, 2) + ":"@
        + dec_padded((ms % 60_000) / 1000, 2) + ","@ + dec_padded(ms % 1000, 3)
}

/// SRT timestamp (`HH:MM:SS,mmm`).
pub fn fmt_srt_ts(ms: u64) -> (r: String)
    ensures
        r@ == srt_ts(ms as nat),
{
    let mut r = String::new();
    push_dec_padded(&mut r, ms / 3_600_000, 2);
    r.append(":");
    push_dec_padded(&mut r, (ms % 3_600_000) / 60_000, 2);
    r.append(":");
    push_dec_padded(&mut r, (ms % 60_000) / 1000, 2);
    r.append(",");
    push_dec_padded(&mut r, ms % 1000, 3);
    r
}

/// Milliseconds of one shot.
pub open spec fn shot_ms(s: ScriptShot) -> nat {
    (s.duration_secs as nat) * 1000
}

/// Total milliseconds of a list of shots.
pub open spec fn total_ms(shots: Seq<ScriptShot>) -> nat
    decreases shots.len(),
{
    if shots.len() == 0 {
        0
    } else {
        shot_ms(shots[0]) + total_ms(shots.drop_first())
    }
}

/// Text of a subtitle cue: description and line, or only the line.
pub open spec fn cue_text(s: ScriptShot) -> Seq<char> {
    if is_blank(s.desc@) {
        trim(s.line@)
    } else {
        trim(s.desc@) + "\n"@ + trim(s.line@)
    }
}

/// One SRT cue.
pub open spec fn cue(idx: nat, start: nat, end: nat, text: Seq<char>) -> Seq<char> {
    dec(idx) + "\n"@ + srt_ts(start) + " --> "@ + srt_ts(end) + "\n"@ + text + "\n\n"@
}

/// The SRT of `shots` whose timeline starts at `t` and whose cues are
/// numbered from `idx`: one cue per shot with a spoken line.
pub open spec fn srt_from(shots: Seq<ScriptShot>, t: nat, idx: nat) -> Seq<char>
    decreases shots.len(),
{
    if shots.len() == 0 {
        seq![]
    } else {
        let s = shots[0];
        let end = t + shot_ms(s);
        if !is_blank(s.line@) {
            cue(idx, t, end, cue_text(s)) + srt_from(shots.drop_first(), end, idx + 1)
        } else {
            srt_from(shots.drop_first(), end, idx)
        }
    }
}

/// The number of shots with a spoken line.
pub open spec fn cue_count(shots: Seq<ScriptShot>) -> nat
    decreases shots.len(),
{
    if shots.len() == 0 {
        0
    } else {
        (if is_blank(shots[0].line@) {
            0nat
        } else {
            1nat
        }) + cue_count(shots.drop_first())
    }
}

/// The subtitles of one shot starting at `t`, numbered `idx`: no cue when it
/// has no spoken line; otherwise one cue over its duration whose text is the
/// trimmed description, a line break and the trimmed spoken line, or the
/// spoken line alone when the description is blank.
pub proof fn law_cue_of_one_shot(s: ScriptShot, t: nat, idx: nat)
    ensures
        is_blank(s.line@) ==> srt_from(seq![s], t, idx) == Seq::<char>::empty(),
        !is_blank(s.line@) && !is_blank(s.desc@) ==> srt_from(seq![s], t, idx) == dec(idx) + "\n"@ + srt_ts(t)
            + " --> "@ + srt_ts(t + (s.duration_secs as nat) * 1000) + "\n"@ + trim(s.desc@) + "\n"@ + trim(
            s.line@,
        ) + "\n\n"@,
        !is_blank(s.line@) && is_blank(s.desc@) ==> srt_from(seq![s], t, idx) == dec(idx) + "\n"@ + srt_ts(t)
            + " --> "@ + srt_ts(t + (s.duration_secs as nat) * 1000) + "\n"@ + trim(s.line@) + "\n\n"@,
{
    let e = Seq::<ScriptShot>::empty();
    assert(seq![s].drop_first() =~= e);
    assert(seq![s][0] == s);
    let end = t + shot_ms(s);
    assert(srt_from(e, end, idx) == Seq::<char>::empty());
    assert(srt_from(e, end, idx + 1) == Seq::<char>::empty());
    let c = cue(idx, t, end, cue_text(s));
    assert(c + Seq::<char>::empty() =~= c);
}

/// Subtitles of two storyboards in turn are the subtitles of the first
/// followed by those of the second, whose timeline starts where the first
/// ends and whose cues are numbered after the first's.
pub proof fn law_srt_concat(a: Seq<ScriptShot>, b: Seq<ScriptShot>, t: nat, idx: nat)
    ensures
        srt_from(a + b, t, idx) == srt_from(a, t, idx) + srt_from(b, t + total_ms(a), idx + cue_count(a)),
    decreases a.len(),
{
    if a.len() == 0 {
        assert(a + b =~= b);
    } else {
        let s = a[0];
        let end = t + shot_ms(s);
        law_srt_concat(a.drop_first(), b, end, if is_blank(s.line@) { idx } else { idx + 1 });
        assert((a + b).drop_first() =~= a.drop_first() + b);
        assert((a + b)[0] == s);
    }
}

proof fn lemma_total_ms_split(shots: Seq<ScriptShot>, i: int)
    requires
        0 <= i < shots.len(),
    ensures
        total_ms(shots.skip(i)) == shot_ms(shots[i]) + total_ms(shots.skip(i + 1)),
{
    assert(shots.skip(i).drop_first() =~= shots.skip(i + 1));
}

proof fn lemma_total_ms_take(shots: Seq<ScriptShot>, i: int)
    requires
        0 <= i <= shots.len(),
    ensures
        total_ms(shots) == total_ms(shots.take(i)) + total_ms(shots.skip(i)),
    decreases shots.len(),
{
    if shots.len() == 0 {
        assert(shots.take(i) =~= shots);
        assert(shots.skip(i) =~= shots);
    } else if i == 0 {
        assert(shots.skip(0) =~= shots);
        assert(shots.take(0) =~= Seq::<ScriptShot>::empty());
    } else {
        lemma_total_ms_take(shots.drop_first(), i - 1);
        assert(shots.take(i).drop_first() =~= shots.drop_first().take(i - 1));
        assert(shots.drop_first().skip(i - 1) =~= shots.skip(i));
    }
}

/// Subtitles from the storyboard: one cue per shot with a spoken line, the
/// timeline accumulating `duration_secs`; cue text is the description and the
/// line (only the line when the description is blank).
pub fn build_srt(shots: &Vec<ScriptShot>) -> (r: String)
    requires
        total_ms(shots@) <= u64::MAX,
        shots@.len() < u32::MAX,
    ensures
        r@ == srt_from(shots@, 0, 1),
{
    let mut out = String::new();
    let mut t: u64 = 0;
    let mut idx: u32 = 1;
    let mut i: usize = 0;
    assert(shots@.skip(0) =~= shots@);
    proof {
        lemma_total_ms_take(shots@, 0);
    }
    while i < shots.len()
        invariant
            i <= shots.len(),
            shots@.len() < u32::MAX,
            idx <= i + 1,
            t + total_ms(shots@.skip(i as int)) == total_ms(shots@),
            total_ms(shots@) <= u64::MAX,
            out@ + srt_from(shots@.skip(i as int), t as nat, idx as nat) == srt_from(shots@, 0, 1),
        decreases shots.len() - i,
    {
        let s = &shots[i];
        proof {
            lemma_total_ms_split(shots@, i as int);
        }
        assert(shots@.skip(i as int).drop_first() =~= shots@.skip(i + 1));
        let dur: u64 = s.duration_secs as u64 * 1000;
        if !blank(s.line.as_str()) {
            push_cue(&mut out, idx, t, t + dur, s);
            idx = idx + 1;
        }
        t = t + dur;
        i = i + 1;
    }
    assert(shots@.skip(i as int) =~= Seq::<ScriptShot>::empty());
    r_out(out)
}

fn r_out(s: String) -> (r: String)
    ensures
        r == s,
{
    s
}

fn push_cue(out: &mut String, idx: u32, start: u64, end: u64, s: &ScriptShot)
    ensures
        final(out)@ == old(out)@ + cue(idx as nat, start as nat, end as nat, cue_text(*s)),
{
    push_dec(out, idx as u64);
    out.append("\n");
    let a = fmt_srt_ts(start);
    out.append(a.as_str());
    out.append(" --> ");
    let b = fmt_srt_ts(end);
    out.append(b.as_str());
    out.append("\n");
    if blank(s.desc.as_str()) {
        let l = trimmed(s.line.as_str());
        out.append(l.as_str());
    } else {
        let d = trimmed(s.desc.as_str());
        out.append(d.as_str());
        out.append("\n");
        let l = trimmed(s.line.as_str());
        out.append(l.as_str());
    }
    out.append("\n\n");
    assert(final(out)@ =~= old(out)@ + cue(idx as nat, start as nat, end as nat, cue_text(*s)));
}

// ---------------------------------------------------------------------------
// Concat pass
// ---------------------------------------------------------------------------

/// Concat list lines `file 'shot-<n>.mp4'` for `n` in `1..=total`.
pub open spec fn concat_list(total: nat) -> Seq<char>
    decreases total,
{
    if total == 0 {
        seq![]
    } else {
        concat_list((total - 1) as nat) + "file 'shot-"@ + dec(total) + ".mp4'\n"@
    }
}

/// The concat list of the compose stage (relative names, cwd = project dir).
pub fn build_concat_list(total_shots: usize) -> (r: String)
    ensures
        r@ == concat_list(total_shots as nat),
{
    let mut r = String::new();
    let mut n: usize = 0;
    while n < total_shots
        invariant
            n <= total_shots,
            r@ == concat_list(n as nat),
        decreases total_shots - n,
    {
        n = n + 1;
        r.append("file 'shot-");
        push_dec(&mut r, n as u64);
        r.append(".mp4'\n");
    }
    r
}

/// The video filter of the concat pass for an (even) frame size.
pub open spec fn concat_vf(w: nat, h: nat) -> Seq<char> {
    "scale="@ + dec(w) + ":"@ + dec(h) + ":force_original_aspect_ratio=decrease,pad="@ + dec(w)
        + ":"@ + dec(h) + ":(ow-iw)/2:(oh-ih)/2,fps=30"@
}

/// Arguments of the concat pass.
pub open spec fn concat_args(width: nat, height: nat, out: Seq<char>) -> Seq<Seq<char>> {
    let w = (width - width % 2) as nat;
    let h = (height - height % 2) as nat;
    seq![
        "-y"@, "-f"@, "concat"@, "-safe"@, "0"@, "-i"@, "compose-concat.txt"@, "-vf"@,
        concat_vf(w, h), "-c:v"@, "libx264"@, "-pix_fmt"@, "yuv420p"@, "-c:a"@, "aac"@,
        "-ar"@, "44100"@, "-ac"@, "2"@, out,
    ]
}

/// First compose pass (without the program name): the concat list re-encoded
/// to one size and 30 fps (scale keeping aspect, pad centred); odd sizes are
/// lowered to even.
pub fn build_concat_args(width: u32, height: u32, out: &str) -> (r: Vec<String>)
    ensures
        strs(r@) == concat_args(width as nat, height as nat, out@),
{
    let w = width - width % 2;
    let h = height - height % 2;
    let mut vf = String::new();
    vf.append("scale=");
    push_dec(&mut vf, w as u64);
    vf.append(":");
    push_dec(&mut vf, h as u64);
    vf.append(":force_original_aspect_ratio=decrease,pad=");
    push_dec(&mut vf, w as u64);
    vf.append(":");
    push_dec(&mut vf, h as u64);
    vf.append(":(ow-iw)/2:(oh-ih)/2,fps=30");
    let mut r: Vec<String> = Vec::new();
    push_str(&mut r, "-y");
    push_str(&mut r, "-f");
    push_str(&mut r, "concat");
    push_str(&mut r, "-safe");
    push_str(&mut r, "0");
    push_str(&mut r, "-i");
    push_str(&mut r, "compose-concat.txt");
    push_str(&mut r, "-vf");
    push_string(&mut r, vf);
    push_str(&mut r, "-c:v");
    push_str(&mut r, "libx264");
    push_str(&mut r, "-pix_fmt");
    push_str(&mut r, "yuv420p");
    push_str(&mut r, "-c:a");
    push_str(&mut r, "aac");
    push_str(&mut r, "-ar");
    push_str(&mut r, "44100");
    push_str(&mut r, "-ac");
    push_str(&mut r, "2");
    push_str(&mut r, out);
    assert(strs(r@) =~= concat_args(width as nat, height as nat, out@));
    r
}


// ---------------------------------------------------------------------------
// Mix pass
// ---------------------------------------------------------------------------

/// `-i <file>` pairs of the voice inputs.
pub open spec fn voice_inputs(voices: Seq<(String, u64)>) -> Seq<Seq<char>>
    decreases voices.len(),
{
    if voices.len() == 0 {
        seq![]
    } else {
        voice_inputs(voices.drop_last()) + seq!["-i"@, voices.last().0@]
    }
}

/// Filter aligning voice `i` (input `i + 1`) on the timeline.
pub open spec fn voice_filter(i: nat, ms: nat) -> Seq<char> {
    "["@ + dec(i + 1) + ":a]aresample=44100,adelay="@ + dec(ms) + "|"@ + dec(ms) + "[a"@ + dec(i)
        + "]"@
}

/// Labels `[a0][a1]..[a<n-1>]`.
pub open spec fn voice_labels(n: nat) -> Seq<char>
    decreases n,
{
    if n == 0 {
        seq![]
    } else {
        voice_labels((n - 1) as nat) + "[a"@ + dec((n - 1) as nat) + "]"@
    }
}

/// Label of the merged voice track (one voice keeps its own label).
pub open spec fn voice_label(n: nat) -> Seq<char> {
    if n == 1 {
        "a0"@
    } else {
        "voice"@
    }
}

/// The `-filter_complex` graph parts of the mix pass, in order.
pub open spec fn mix_filters(voices: Seq<(String, u64)>, bgm: bool, srt: bool) -> Seq<Seq<char>> {
    let n = voices.len();
    let video = if srt {
        seq!["[0:v]subtitles=subs.srt[vout]"@]
    } else {
        Seq::<Seq<char>>::empty()
    };
    let align = Seq::new(n, |i: int| voice_filter(i as nat, voices[i].1 as nat));
    let merge = if n >= 2 {
        seq![
            voice_labels(n) + "amix=inputs="@ + dec(n) + ":duration=longest:dropout_transition=0[voice]"@,
        ]
    } else {
        Seq::<Seq<char>>::empty()
    };
    let bgm_idx = n + 1;
    let last = if n > 0 && bgm {
        seq![
            "["@ + dec(bgm_idx) + ":a]volume=0.35[bgm]"@,
            "["@ + voice_label(n) + "][bgm]amix=inputs=2:duration=longest:normalize=0[aout]"@,
        ]
    } else if n == 0 && bgm {
        seq!["["@ + dec(bgm_idx) + ":a]volume=0.35[aout]"@]
    } else {
        Seq::<Seq<char>>::empty()
    };
    video + align + merge + last
}

/// The label `[a<i>]` that the alignment of voice `i` outputs.
pub open spec fn aligned_label(i: nat) -> Seq<char> {
    "[a"@ + dec(i) + "]"@
}

/// The labels the alignments of `n` voices output, one per voice.
pub open spec fn aligned_labels(n: nat) -> Seq<Seq<char>> {
    Seq::new(n, |i: int| aligned_label(i as nat))
}

proof fn lemma_voice_labels_flatten(n: nat)
    ensures
        voice_labels(n) == aligned_labels(n).flatten(),
    decreases n,
{
    aligned_labels(n).lemma_flatten_and_flatten_alt_are_equivalent();
    if n > 0 {
        lemma_voice_labels_flatten((n - 1) as nat);
        aligned_labels((n - 1) as nat).lemma_flatten_and_flatten_alt_are_equivalent();
        assert(aligned_labels(n).drop_last() =~= aligned_labels((n - 1) as nat));
    } else {
        assert(aligned_labels(n) =~= Seq::<Seq<char>>::empty());
    }
}

/// The voice merge of the mix graph is fed by every aligned voice and told
/// so: with two voices or more, the alignment of voice `i` (in graph order,
/// after the optional subtitle filter) outputs `[a<i>]`, and the merge filter
/// takes exactly those labels, in order, with `amix=inputs=` the number of
/// labels it takes.
pub proof fn law_amix_counts_its_inputs(voices: Seq<(String, u64)>, bgm: bool, srt: bool)
    requires
        voices.len() >= 2,
    ensures
        ({
            let f = mix_filters(voices, bgm, srt);
            let v: int = if srt { 1 } else { 0 };
            let n = voices.len();
            let labels = aligned_labels(n);
            &&& forall|i: int|
                0 <= i < n ==> (#[trigger] f[v + i]).len() >= labels[i].len() && f[v + i].subrange(
                    f[v + i].len() - labels[i].len(),
                    f[v + i].len() as int,
                ) == labels[i]
            &&& f[v + n] == labels.flatten() + "amix=inputs="@ + dec(labels.len())
                + ":duration=longest:dropout_transition=0[voice]"@
        }),
{
    let f = mix_filters(voices, bgm, srt);
    let v: int = if srt { 1 } else { 0 };
    let n = voices.len();
    let labels = aligned_labels(n);
    lemma_voice_labels_flatten(n);
    assert forall|i: int| 0 <= i < n implies (#[trigger] f[v + i]).len() >= labels[i].len() && f[v + i].subrange(
        f[v + i].len() - labels[i].len(),
        f[v + i].len() as int,
    ) == labels[i] by {
        let body = "["@ + dec((i + 1) as nat) + ":a]aresample=44100,adelay="@ + dec(voices[i].1 as nat) + "|"@
            + dec(voices[i].1 as nat);
        assert(f[v + i] == voice_filter(i as nat, voices[i].1 as nat));
        assert(voice_filter(i as nat, voices[i].1 as nat) =~= body + labels[i]);
        assert((body + labels[i]).subrange(body.len() as int, (body + labels[i]).len() as int) =~= labels[i]);
    }
    assert(f[v + n] == voice_labels(n) + "amix=inputs="@ + dec(n) + ":duration=longest:dropout_transition=0[voice]"@);
}

/// The audio stream mapped into the output.
pub open spec fn mix_audio_map(n: nat, bgm: bool) -> Seq<char> {
    if bgm {
        "[aout]"@
    } else if n > 0 {
        "["@ + voice_label(n) + "]"@
    } else {
        "0:a?"@
    }
}

/// Input arguments of the mix pass: the composed video, the voices, the
/// looped background music.
pub open spec fn mix_inputs(voices: Seq<(String, u64)>, bgm: Option<Seq<char>>) -> Seq<Seq<char>> {
    seq!["-y"@, "-i"@, "compose-video.mp4"@] + voice_inputs(voices) + (match bgm {
        Some(b) => seq!["-stream_loop"@, "-1"@, "-i"@, b],
        None => Seq::<Seq<char>>::empty(),
    })
}

/// The `-filter_complex` pair, absent when there is no filter.
pub open spec fn filter_args(filters: Seq<Seq<char>>) -> Seq<Seq<char>> {
    if filters.len() > 0 {
        seq!["-filter_complex"@, join(filters, ";"@)]
    } else {
        Seq::<Seq<char>>::empty()
    }
}

/// Stream mapping, codecs and `-shortest` of the mix pass.
pub open spec fn mix_tail(n: nat, bgm: bool, srt: bool) -> Seq<Seq<char>> {
    seq![
        "-map"@,
        if srt { "[vout]"@ } else { "0:v"@ },
        "-map"@,
        mix_audio_map(n, bgm),
        "-c:v"@,
        if srt { "libx264"@ } else { "copy"@ },
        "-pix_fmt"@, "yuv420p"@, "-c:a"@, "aac"@, "-b:a"@, "192k"@, "-ar"@, "44100"@,
    ] + (if bgm || n > 0 {
        seq!["-shortest"@]
    } else {
        Seq::<Seq<char>>::empty()
    })
}

/// Arguments of the mix pass (without the program name).
pub open spec fn mix_args(voices: Seq<(String, u64)>, bgm: Option<Seq<char>>, srt: bool, out: Seq<char>) -> Seq<Seq<char>> {
    mix_inputs(voices, bgm) + filter_args(mix_filters(voices, bgm is Some, srt)) + mix_tail(
        voices.len(),
        bgm is Some,
        srt,
    ) + seq![out]
}

fn voice_filter_string(i: usize, ms: u64) -> (r: String)
    requires
        i < usize::MAX,
    ensures
        r@ == voice_filter(i as nat, ms as nat),
{
    let mut r = String::new();
    r.append("[");
    push_dec(&mut r, (i + 1) as u64);
    r.append(":a]aresample=44100,adelay=");
    push_dec(&mut r, ms);
    r.append("|");
    push_dec(&mut r, ms);
    r.append("[a");
    push_dec(&mut r, i as u64);
    r.append("]");
    r
}

fn voice_labels_string(n: usize) -> (r: String)
    ensures
        r@ == voice_labels(n as nat),
{
    let mut r = String::new();
    let mut k: usize = 0;
    while k < n
        invariant
            k <= n,
            r@ == voice_labels(k as nat),
        decreases n - k,
    {
        r.append("[a");
        push_dec(&mut r, k as u64);
        r.append("]");
        k = k + 1;
    }
    r
}

fn mix_filter_list(voices: &[(String, u64)], bgm: bool, srt: bool) -> (r: Vec<String>)
    requires
        voices@.len() < usize::MAX,
    ensures
        strs(r@) == mix_filters(voices@, bgm, srt),
{
    let n = voices.len();
    let mut r: Vec<String> = Vec::new();
    if srt {
        push_str(&mut r, "[0:v]subtitles=subs.srt[vout]");
    }
    let ghost video = strs(r@);
    let mut i: usize = 0;
    while i < n
        invariant
            n == voices@.len() < usize::MAX,
            i <= n,
            strs(r@) == video + Seq::new(i as nat, |k: int| voice_filter(k as nat, voices@[k].1 as nat)),
        decreases n - i,
    {
        let f = voice_filter_string(i, voices[i].1);
        push_string(&mut r, f);
        assert(Seq::new((i + 1) as nat, |k: int| voice_filter(k as nat, voices@[k].1 as nat))
            =~= Seq::new(i as nat, |k: int| voice_filter(k as nat, voices@[k].1 as nat)).push(
            voice_filter(i as nat, voices@[i as int].1 as nat),
        ));
        i = i + 1;
    }
    let ghost aligned = strs(r@);
    if n >= 2 {
        let mut m = voice_labels_string(n);
        m.append("amix=inputs=");
        push_dec(&mut m, n as u64);
        m.append(":duration=longest:dropout_transition=0[voice]");
        push_string(&mut r, m);
    }
    let ghost merged = strs(r@);
    if n > 0 && bgm {
        let mut a = String::new();
        a.append("[");
        push_dec(&mut a, (n + 1) as u64);
        a.append(":a]volume=0.35[bgm]");
        push_string(&mut r, a);
        let mut b = String::new();
        b.append("[");
        if n == 1 {
            b.append("a0");
        } else {
            b.append("voice");
        }
        b.append("][bgm]amix=inputs=2:duration=longest:normalize=0[aout]");
        push_string(&mut r, b);
    } else if n == 0 && bgm {
        let mut a = String::new();
        a.append("[");
        push_dec(&mut a, (n + 1) as u64);
        a.append(":a]volume=0.35[aout]");
        push_string(&mut r, a);
    }
    assert(strs(r@) =~= mix_filters(voices@, bgm, srt));
    r
}

pub open spec fn opt_str_view(o: Option<&str>) -> Option<Seq<char>> {
    match o {
        Some(b) => Some(b@),
        None => None,
    }
}

fn mix_input_list(voices: &[(String, u64)], bgm: Option<&str>) -> (r: Vec<String>)
    ensures
        strs(r@) == mix_inputs(voices@, opt_str_view(bgm)),
{
    let n = voices.len();
    let mut args: Vec<String> = Vec::new();
    push_str(&mut args, "-y");
    push_str(&mut args, "-i");
    push_str(&mut args, "compose-video.mp4");
    let mut i: usize = 0;
    let ghost head = strs(args@);
    while i < n
        invariant
            n == voices@.len(),
            i <= n,
            strs(args@) == head + voice_inputs(voices@.take(i as int)),
        decreases n - i,
    {
        assert(voices@.take(i + 1).drop_last() =~= voices@.take(i as int));
        push_str(&mut args, "-i");
        push_str(&mut args, voices[i].0.as_str());
        i = i + 1;
    }
    assert(voices@.take(n as int) =~= voices@);
    match bgm {
        Some(b) => {
            push_str(&mut args, "-stream_loop");
            push_str(&mut args, "-1");
            push_str(&mut args, "-i");
            push_str(&mut args, b);
        },
        None => {},
    }
    assert(strs(args@) =~= mix_inputs(voices@, opt_str_view(bgm)));
    args
}

fn mix_tail_list(n: usize, bgm: bool, srt: bool) -> (r: Vec<String>)
    ensures
        strs(r@) == mix_tail(n as nat, bgm, srt),
{
    let mut args: Vec<String> = Vec::new();
    push_str(&mut args, "-map");
    push_str(&mut args, if srt { "[vout]" } else { "0:v" });
    push_str(&mut args, "-map");
    if bgm {
        push_str(&mut args, "[aout]");
    } else if n > 0 {
        let mut a = String::new();
        a.append("[");
        if n == 1 {
            a.append("a0");
        } else {
            a.append("voice");
        }
        a.append("]");
        push_string(&mut args, a);
    } else {
        push_str(&mut args, "0:a?");
    }
    push_str(&mut args, "-c:v");
    push_str(&mut args, if srt { "libx264" } else { "copy" });
    push_str(&mut args, "-pix_fmt");
    push_str(&mut args, "yuv420p");
    push_str(&mut args, "-c:a");
    push_str(&mut args, "aac");
    push_str(&mut args, "-b:a");
    push_str(&mut args, "192k");
    push_str(&mut args, "-ar");
    push_str(&mut args, "44100");
    if bgm || n > 0 {
        push_str(&mut args, "-shortest");
    }
    assert(strs(args@) =~= mix_tail(n as nat, bgm, srt));
    args
}

/// Moves all strings of `src` to the end of `dst`.
pub fn extend_strings(dst: &mut Vec<String>, src: Vec<String>)
    ensures
        strs(final(dst)@) == strs(old(dst)@) + strs(src@),
{
    let mut src = src;
    let ghost s0 = src@;
    dst.append(&mut src);
    assert(strs(final(dst)@) =~= strs(old(dst)@) + strs(s0));
}

/// Second compose pass (without the program name): voices aligned on the
/// shot timeline with `adelay`, background music looped under them at volume
/// 0.35, subtitles burnt in when present; without subtitles the video stream
/// is copied.
pub fn build_mix_args(voices: &[(String, u64)], bgm: Option<&str>, srt: bool, out: &str) -> (r: Vec<String>)
    requires
        voices@.len() < usize::MAX,
    ensures
        strs(r@) == mix_args(voices@, opt_str_view(bgm), srt, out@),
{
    let mut args = mix_input_list(voices, bgm);
    let filters = mix_filter_list(voices, bgm.is_some(), srt);
    if filters.len() > 0 {
        push_str(&mut args, "-filter_complex");
        let j = join_strings_semicolon(&filters);
        push_string(&mut args, j);
    }
    let ghost fl = strs(filters@);
    assert(fl.len() == filters@.len());
    let tail = mix_tail_list(voices.len(), bgm.is_some(), srt);
    extend_strings(&mut args, tail);
    push_str(&mut args, out);
    args
}

fn join_strings_semicolon(v: &Vec<String>) -> (r: String)
    ensures
        r@ == join(strs(v@), ";"@),
{
    crate::text::join_strings(v, ";")
}


// ---------------------------------------------------------------------------
// Image and mime sniffing
// ---------------------------------------------------------------------------

/// File extension of an image by its magic bytes (png / jpg / webp).
pub open spec fn image_ext_of(b: Seq<u8>) -> Option<Seq<char>> {
    if b.len() >= 8 && b.take(8) == seq![0x89u8, 0x50u8, 0x4Eu8, 0x47u8, 0x0Du8, 0x0Au8, 0x1Au8, 0x0Au8] {
        Some("png"@)
    } else if b.len() >= 3 && b.take(3) == seq![0xFFu8, 0xD8u8, 0xFFu8] {
        Some("jpg"@)
    } else if b.len() >= 12 && b.take(4) == seq![0x52u8, 0x49u8, 0x46u8, 0x46u8] && b.subrange(8, 12)
        == seq![0x57u8, 0x45u8, 0x42u8, 0x50u8] {
        Some("webp"@)
    } else {
        None
    }
}

pub open spec fn static_view(o: Option<&'static str>) -> Option<Seq<char>> {
    match o {
        Some(s) => Some(s@),
        None => None,
    }
}

fn bytes_at(b: &[u8], at: usize, pat: &[u8]) -> (r: bool)
    requires
        at + pat@.len() <= b@.len(),
    ensures
        r == (b@.subrange(at as int, at + pat@.len()) == pat@),
{
    let mut i: usize = 0;
    while i < pat.len()
        invariant
            at + pat@.len() <= b@.len(),
            b@.len() == b.len(),
            i <= pat.len(),
            forall|k: int| 0 <= k < i ==> b@[at + k] == pat@[k],
        decreases pat.len() - i,
    {
        if b[at + i] != pat[i] {
            assert(b@.subrange(at as int, at + pat@.len())[i as int] == b@[at + i]);
            return false;
        }
        i = i + 1;
    }
    assert(b@.subrange(at as int, at + pat@.len()) =~= pat@);
    true
}

/// Image extension by magic bytes: `png`, `jpg` or `webp`; `None` otherwise.
pub fn sniff_image_ext(bytes: &[u8]) -> (r: Option<&'static str>)
    ensures
        static_view(r) == image_ext_of(bytes@),
{
    let png: [u8; 8] = [0x89, 0x50, 0x4E, 0x47, 0x0D, 0x0A, 0x1A, 0x0A];
    let jpg: [u8; 3] = [0xFF, 0xD8, 0xFF];
    let riff: [u8; 4] = [0x52, 0x49, 0x46, 0x46];
    let webp: [u8; 4] = [0x57, 0x45, 0x42, 0x50];
    assert(png@ =~= seq![0x89u8, 0x50u8, 0x4Eu8, 0x47u8, 0x0Du8, 0x0Au8, 0x1Au8, 0x0Au8]);
    assert(jpg@ =~= seq![0xFFu8, 0xD8u8, 0xFFu8]);
    assert(riff@ =~= seq![0x52u8, 0x49u8, 0x46u8, 0x46u8]);
    assert(webp@ =~= seq![0x57u8, 0x45u8, 0x42u8, 0x50u8]);
    assert(bytes@.subrange(0, 8) =~= bytes@.take(8));
    assert(bytes@.subrange(0, 3) =~= bytes@.take(3));
    assert(bytes@.subrange(0, 4) =~= bytes@.take(4));
    if bytes.len() >= 8 && bytes_at(bytes, 0, png.as_slice()) {
        return Some("png");
    }
    if bytes.len() >= 3 && bytes_at(bytes, 0, jpg.as_slice()) {
        return Some("jpg");
    }
    if bytes.len() >= 12 && bytes_at(bytes, 0, riff.as_slice()) && bytes_at(bytes, 8, webp.as_slice()) {
        return Some("webp");
    }
    None
}

/// ASCII lower-case of one character.
pub open spec fn lower_char(c: char) -> char {
    if 'A' <= c && c <= 'Z' {
        ((c as u32) + 32) as char
    } else {
        c
    }
}

/// ASCII lower-case of a sequence (`to_ascii_lowercase`).
pub open spec fn ascii_lower(s: Seq<char>) -> Seq<char> {
    Seq::new(s.len(), |i: int| lower_char(s[i]))
}

/// ASCII lower-case of `s`.
pub fn to_ascii_lower(s: &str) -> (r: String)
    ensures
        r@ == ascii_lower(s@),
{
    let v = chars_of(s);
    let mut r = String::new();
    let mut i: usize = 0;
    while i < v.len()
        invariant
            v@ == s@,
            i <= v.len(),
            r@ == ascii_lower(v@.take(i as int)),
        decreases v.len() - i,
    {
        let c = v[i];
        let l = if 'A' <= c && c <= 'Z' {
            let b: u8 = c as u8;
            (b + 32) as char
        } else {
            c
        };
        crate::text::push_char(&mut r, l);
        assert(ascii_lower(v@.take(i + 1)) =~= ascii_lower(v@.take(i as int)).push(lower_char(c)));
        i = i + 1;
    }
    assert(v@.take(v.len() as int) =~= v@);
    r
}

/// Extension of an upload mime type (png / jpeg / webp white list).
pub open spec fn mime_ext(m: Seq<char>) -> Option<Seq<char>> {
    let k = ascii_lower(trim(m));
    if k == "image/png"@ {
        Some("png"@)
    } else if k == "image/jpeg"@ {
        Some("jpg"@)
    } else if k == "image/webp"@ {
        Some("webp"@)
    } else {
        None
    }
}

/// Mime type to extension for portrait uploads (trimmed, case-insensitive);
/// `None` outside the white list.
pub fn ext_for_mime(mime: &str) -> (r: Option<&'static str>)
    ensures
        static_view(r) == mime_ext(mime@),
{
    let t = trimmed(mime);
    let m = to_ascii_lower(t.as_str());
    if str_eq(m.as_str(), "image/png") {
        Some("png")
    } else if str_eq(m.as_str(), "image/jpeg") {
        Some("jpg")
    } else if str_eq(m.as_str(), "image/webp") {
        Some("webp")
    } else {
        None
    }
}

// ---------------------------------------------------------------------------
// Stage timeouts
// ---------------------------------------------------------------------------

/// The timeout a raw setting gives: a number in `60..=1800`, else the default.
pub open spec fn stage_timeout(raw: Option<Seq<char>>, default: u64) -> u64 {
    match raw {
        Some(s) => match crate::text::parse_u64(trim(s)) {
            Some(v) => if 60 <= v && v <= 1800 {
                v
            } else {
                default
            },
            None => default,
        },
        None => default,
    }
}

/// Stage timeout in seconds: a number in `60..=1800`, otherwise `default`.
pub fn parse_stage_timeout(raw: Option<&str>, default: u64) -> (r: u64)
    ensures
        r == stage_timeout(opt_str_view(raw), default),
{
    match raw {
        Some(s) => match crate::text::parse_u64_trimmed(s) {
            Some(v) => if 60 <= v && v <= 1800 {
                v
            } else {
                default
            },
            None => default,
        },
        None => default,
    }
}

// ---------------------------------------------------------------------------
// ffmpeg lookup
// ---------------------------------------------------------------------------

/// `<dir>/ffmpeg` (no doubled slash).
pub open spec fn ffmpeg_in(d: Seq<char>) -> Seq<char> {
    if d.len() > 0 && d.last() == '/' {
        d + "ffmpeg"@
    } else {
        d + "/ffmpeg"@
    }
}

/// The places probed for ffmpeg, in order: the override (trimmed, when not
/// blank), each search directory, the usual install locations.
pub open spec fn ffmpeg_probe_order(env_bin: Option<Seq<char>>, dirs: Seq<String>, extra: Seq<&str>) -> Seq<Seq<char>> {
    (match env_bin {
        Some(e) => if !is_blank(e) {
            seq![trim(e)]
        } else {
            Seq::<Seq<char>>::empty()
        },
        None => Seq::<Seq<char>>::empty(),
    }) + dirs.map_values(|d: String| ffmpeg_in(d@)) + extra.map_values(|p: &str| p@)
}

/// The ffmpeg candidates to probe, in order (override, search path, usual
/// locations).
pub fn ffmpeg_candidates(env_bin: Option<&str>, path_dirs: &[String], extra_candidates: &[&str]) -> (r: Vec<String>)
    ensures
        strs(r@) == ffmpeg_probe_order(opt_str_view(env_bin), path_dirs@, extra_candidates@),
{
    let mut r: Vec<String> = Vec::new();
    match env_bin {
        Some(e) => {
            if !blank(e) {
                push_string(&mut r, trimmed(e));
            }
        },
        None => {},
    }
    let ghost head = strs(r@);
    let mut i: usize = 0;
    while i < path_dirs.len()
        invariant
            i <= path_dirs@.len(),
            strs(r@) == head + path_dirs@.take(i as int).map_values(|d: String| ffmpeg_in(d@)),
        decreases path_dirs.len() - i,
    {
        let d = &path_dirs[i];
        let dv = chars_of(d.as_str());
        let mut c = String::new();
        c.append(d.as_str());
        if dv.len() > 0 && dv[dv.len() - 1] == '/' {
            c.append("ffmpeg");
        } else {
            c.append("/ffmpeg");
        }
        push_string(&mut r, c);
        assert(path_dirs@.take(i + 1).map_values(|d: String| ffmpeg_in(d@)) =~= path_dirs@.take(
            i as int,
        ).map_values(|d: String| ffmpeg_in(d@)).push(ffmpeg_in(path_dirs@[i as int]@)));
        i = i + 1;
    }
    assert(path_dirs@.take(path_dirs@.len() as int) =~= path_dirs@);
    let ghost mid = strs(r@);
    let mut j: usize = 0;
    while j < extra_candidates.len()
        invariant
            j <= extra_candidates@.len(),
            strs(r@) == mid + extra_candidates@.take(j as int).map_values(|p: &str| p@),
        decreases extra_candidates.len() - j,
    {
        push_str(&mut r, extra_candidates[j]);
        assert(extra_candidates@.take(j + 1).map_values(|p: &str| p@) =~= extra_candidates@.take(
            j as int,
        ).map_values(|p: &str| p@).push(extra_candidates@[j as int]@));
        j = j + 1;
    }
    assert(extra_candidates@.take(extra_candidates@.len() as int) =~= extra_candidates@);
    r
}

/// Index of the first candidate that is executable.
pub open spec fn first_true(flags: Seq<bool>) -> Option<int>
    decreases flags.len(),
{
    if flags.len() == 0 {
        None
    } else if flags[0] {
        Some(0)
    } else {
        match first_true(flags.drop_first()) {
            Some(k) => Some(k + 1),
            None => None,
        }
    }
}

/// The first probed candidate that is executable (`executable[i]` tells
/// whether `candidates[i]` is an executable file).
pub fn detect_ffmpeg_with(candidates: &[String], executable: &[bool]) -> (r: Option<String>)
    requires
        candidates@.len() == executable@.len(),
    ensures
        match (r, first_true(executable@)) {
            (Some(p), Some(k)) => p@ == candidates@[k]@,
            (None, None) => true,
            _ => false,
        },
{
    let mut i: usize = 0;
    assert(executable@.skip(0) =~= executable@);
    while i < candidates.len()
        invariant
            candidates@.len() == executable@.len(),
            i <= candidates.len(),
            crate::text::shift(first_true(executable@.skip(i as int)), i as int) == first_true(
                executable@,
            ),
        decreases candidates.len() - i,
    {
        if executable[i] {
            return Some(candidates[i].clone());
        }
        assert(executable@.skip(i as int).drop_first() =~= executable@.skip(i + 1));
        i = i + 1;
    }
    None
}

// ---------------------------------------------------------------------------
// Compose planning
// ---------------------------------------------------------------------------

/// `line-<n>.mp3`.
pub open spec fn line_file(n: nat) -> Seq<char> {
    "line-"@ + dec(n) + ".mp3"@
}

/// `shot-<n>.mp4`.
pub open spec fn shot_video_file(n: nat) -> Seq<char> {
    "shot-"@ + dec(n) + ".mp4"@
}

/// Voice inputs of the mix pass: each shot with a recorded line contributes
/// its line file starting at the shot's offset on the timeline (offset `t`
/// for the first shot).
pub open spec fn voice_plan(shots: Seq<ScriptShot>, has_line: Seq<bool>, t: nat) -> Seq<(Seq<char>, nat)>
    decreases shots.len(),
{
    if shots.len() == 0 {
        seq![]
    } else {
        let rest = voice_plan(shots.drop_first(), has_line.drop_first(), t + shot_ms(shots[0]));
        if has_line[0] {
            seq![(line_file(shots[0].shot as nat), t)] + rest
        } else {
            rest
        }
    }
}

pub open spec fn voice_views(v: Seq<(String, u64)>) -> Seq<(Seq<char>, nat)> {
    v.map_values(|p: (String, u64)| (p.0@, p.1 as nat))
}

/// The voice inputs of the mix pass from the storyboard and which shots have
/// a recorded line file.
pub fn plan_voices(shots: &Vec<ScriptShot>, has_line: &Vec<bool>) -> (r: Vec<(String, u64)>)
    requires
        shots@.len() == has_line@.len(),
        total_ms(shots@) <= u64::MAX,
    ensures
        voice_views(r@) == voice_plan(shots@, has_line@, 0),
{
    let mut r: Vec<(String, u64)> = Vec::new();
    let mut t: u64 = 0;
    let mut i: usize = 0;
    assert(shots@.skip(0) =~= shots@);
    assert(has_line@.skip(0) =~= has_line@);
    while i < shots.len()
        invariant
            shots@.len() == has_line@.len(),
            i <= shots.len(),
            t + total_ms(shots@.skip(i as int)) == total_ms(shots@),
            total_ms(shots@) <= u64::MAX,
            voice_views(r@) + voice_plan(shots@.skip(i as int), has_line@.skip(i as int), t as nat)
                == voice_plan(shots@, has_line@, 0),
        decreases shots.len() - i,
    {
        proof {
            lemma_total_ms_split(shots@, i as int);
        }
        assert(shots@.skip(i as int).drop_first() =~= shots@.skip(i + 1));
        assert(has_line@.skip(i as int).drop_first() =~= has_line@.skip(i + 1));
        let ghost before = voice_views(r@);
        if has_line[i] {
            let mut f = String::new();
            f.append("line-");
            push_dec(&mut f, shots[i].shot as u64);
            f.append(".mp3");
            r.push((f, t));
            assert(voice_views(r@) =~= before.push((line_file(shots@[i as int].shot as nat), t as nat)));
        }
        t = t + shots[i].duration_secs as u64 * 1000;
        i = i + 1;
    }
    assert(shots@.skip(i as int) =~= Seq::<ScriptShot>::empty());
    r
}

/// Shot video files that are missing (`has_video[i]` tells whether shot `i`
/// has its video).
pub open spec fn missing_videos(shots: Seq<ScriptShot>, has_video: Seq<bool>) -> Seq<Seq<char>>
    decreases shots.len(),
{
    if shots.len() == 0 {
        seq![]
    } else {
        let rest = missing_videos(shots.drop_first(), has_video.drop_first());
        if has_video[0] {
            rest
        } else {
            seq![shot_video_file(shots[0].shot as nat)] + rest
        }
    }
}

/// The missing shot video files, in storyboard order.
pub fn missing_shot_videos(shots: &Vec<ScriptShot>, has_video: &Vec<bool>) -> (r: Vec<String>)
    requires
        shots@.len() == has_video@.len(),
    ensures
        strs(r@) == missing_videos(shots@, has_video@),
{
    let mut r: Vec<String> = Vec::new();
    let mut i: usize = 0;
    assert(shots@.skip(0) =~= shots@);
    assert(has_video@.skip(0) =~= has_video@);
    while i < shots.len()
        invariant
            shots@.len() == has_video@.len(),
            i <= shots.len(),
            strs(r@) + missing_videos(shots@.skip(i as int), has_video@.skip(i as int))
                == missing_videos(shots@, has_video@),
        decreases shots.len() - i,
    {
        assert(shots@.skip(i as int).drop_first() =~= shots@.skip(i + 1));
        assert(has_video@.skip(i as int).drop_first() =~= has_video@.skip(i + 1));
        let ghost before = strs(r@);
        if !has_video[i] {
            let mut f = String::new();
            f.append("shot-");
            push_dec(&mut f, shots[i].shot as u64);
            f.append(".mp4");
            push_string(&mut r, f);
            assert(strs(r@) =~= before.push(shot_video_file(shots@[i as int].shot as nat)));
        }
        i = i + 1;
    }
    assert(shots@.skip(i as int) =~= Seq::<ScriptShot>::empty());
    r
}

/// The length of the film in seconds: the shots' durations summed.
pub fn total_seconds(shots: &Vec<ScriptShot>) -> (r: u64)
    requires
        total_ms(shots@) <= u64::MAX,
    ensures
        r * 1000 == total_ms(shots@),
{
    let mut t: u64 = 0;
    let mut i: usize = 0;
    assert(shots@.skip(0) =~= shots@);
    while i < shots.len()
        invariant
            i <= shots.len(),
            t * 1000 + total_ms(shots@.skip(i as int)) == total_ms(shots@),
            total_ms(shots@) <= u64::MAX,
        decreases shots.len() - i,
    {
        proof {
            lemma_total_ms_split(shots@, i as int);
        }
        t = t + shots[i].duration_secs as u64;
        i = i + 1;
    }
    assert(shots@.skip(i as int) =~= Seq::<ScriptShot>::empty());
    t
}

} // verus!
