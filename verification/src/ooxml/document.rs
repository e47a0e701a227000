//! Helpers of the `document.xml` body mapping: the loss features it
//! aggregates and their messages, tracked-change statistics, and the text of
//! Office math.

use vstd::prelude::*;
use crate::ooxml::xml::{el_is, El};
use crate::text::{
    dec, fmt_u64, lemma_seq_lt_order, lemma_seq_lt_trans, push_all, push_str, seq_lt, str_eq, str_less,
    string_of,
};

verus! {

/// How much of a feature survived the conversion.
#[derive(Debug, Clone, Copy, PartialEq, Eq, Structural)]
pub enum LossClass {
    Lossless,
    Partial,
    Degraded,
    PreservedRaw,
    Unsupported,
}

pub const RUN_PROPS: &'static str = "docx_run_props";
pub const PARA_PROPS: &'static str = "docx_paragraph_props";
pub const TAB: &'static str = "docx_tab";
pub const PAGE_BREAK: &'static str = "docx_page_break";
pub const BOOKMARK: &'static str = "docx_bookmark";
pub const FIELD: &'static str = "docx_field";
pub const SDT: &'static str = "docx_sdt";
pub const ALT_CONTENT: &'static str = "docx_alternate_content";
pub const VML: &'static str = "docx_vml";
pub const FLOATING: &'static str = "docx_floating_image";
pub const INTERNAL_LINK: &'static str = "docx_internal_link";
pub const OMML: &'static str = "docx_omml";
pub const TRACKED: &'static str = "docx_tracked_changes";
pub const CROSS_BLOCK: &'static str = "docx_comment_cross_block";
pub const COMMENT_ANCHOR: &'static str = "docx_comment_anchor";
pub const ENDNOTES: &'static str = "docx_endnotes";
pub const NUM_EDGE: &'static str = "docx_numbering_edge";
pub const MEDIA_MISSING: &'static str = "docx_media_missing";
pub const FOOTNOTE_MISSING: &'static str = "docx_footnote_missing";
pub const TABLE_EDGE: &'static str = "docx_table_edge";
pub const SKIPPED: &'static str = "docx_unmodelled_element";

/// What the report says about a feature.
pub open spec fn feature_what(feature: Seq<char>) -> Seq<char> {
    if feature == "docx_run_props"@ {
        "run 直接格式属性在 v1 模型无对应"@
    } else if feature == "docx_paragraph_props"@ {
        "段落直接格式属性在 v1 模型无对应"@
    } else if feature == "docx_tab"@ {
        "制表位退化为空格"@
    } else if feature == "docx_page_break"@ {
        "分页符以水平分隔线近似表达"@
    } else if feature == "docx_bookmark"@ {
        "书签锚点无对应表达"@
    } else if feature == "docx_field"@ {
        "域指令无法建模（结果文本已保留）"@
    } else if feature == "docx_sdt"@ {
        "内容控件被透明解包"@
    } else if feature == "docx_alternate_content"@ {
        "AlternateContent 取兼容表达（Fallback 优先）"@
    } else if feature == "docx_vml"@ {
        "VML/图形以原始形式保留"@
    } else if feature == "docx_floating_image"@ {
        "浮动图片的定位信息丢失"@
    } else if feature == "docx_internal_link"@ {
        "文档内锚点链接在 v1 模型中无目标表达"@
    } else if feature == "docx_omml"@ {
        "OMML 公式以原始形式保留（未转 LaTeX）"@
    } else if feature == "docx_tracked_changes"@ {
        "修订（tracked changes）按终稿视图导入"@
    } else if feature == "docx_comment_cross_block"@ {
        "批注锚定区间跨块，降级为块级标注"@
    } else if feature == "docx_comment_anchor"@ {
        "批注无法锚定到正文"@
    } else if feature == "docx_endnotes"@ {
        "尾注按脚注表达（编号语义有差异）"@
    } else if feature == "docx_numbering_edge"@ {
        "编号列表的边角语义未建模"@
    } else if feature == "docx_media_missing"@ {
        "关系指向的媒体缺失"@
    } else if feature == "docx_footnote_missing"@ {
        "脚注引用找不到对应定义"@
    } else if feature == "docx_table_edge"@ {
        "表格合并的边角语义未建模"@
    } else if feature == "docx_unmodelled_element"@ {
        "未建模的元素被跳过"@
    } else {
        "已按损失规范处理"@
    }
}

/// The aggregated message of a feature: what happened and how often.
pub open spec fn agg_message_spec(feature: Seq<char>, count: nat) -> Seq<char> {
    feature_what(feature) + "（"@ + dec(count) + " 处）"@
}

fn feature_text(feature: &str) -> (r: &'static str)
    ensures
        r@ == feature_what(feature@),
{
    if str_eq(feature, RUN_PROPS) {
        "run 直接格式属性在 v1 模型无对应"
    } else if str_eq(feature, PARA_PROPS) {
        "段落直接格式属性在 v1 模型无对应"
    } else if str_eq(feature, TAB) {
        "制表位退化为空格"
    } else if str_eq(feature, PAGE_BREAK) {
        "分页符以水平分隔线近似表达"
    } else if str_eq(feature, BOOKMARK) {
        "书签锚点无对应表达"
    } else if str_eq(feature, FIELD) {
        "域指令无法建模（结果文本已保留）"
    } else if str_eq(feature, SDT) {
        "内容控件被透明解包"
    } else if str_eq(feature, ALT_CONTENT) {
        "AlternateContent 取兼容表达（Fallback 优先）"
    } else if str_eq(feature, VML) {
        "VML/图形以原始形式保留"
    } else if str_eq(feature, FLOATING) {
        "浮动图片的定位信息丢失"
    } else if str_eq(feature, INTERNAL_LINK) {
        "文档内锚点链接在 v1 模型中无目标表达"
    } else if str_eq(feature, OMML) {
        "OMML 公式以原始形式保留（未转 LaTeX）"
    } else if str_eq(feature, TRACKED) {
        "修订（tracked changes）按终稿视图导入"
    } else if str_eq(feature, CROSS_BLOCK) {
        "批注锚定区间跨块，降级为块级标注"
    } else if str_eq(feature, COMMENT_ANCHOR) {
        "批注无法锚定到正文"
    } else if str_eq(feature, ENDNOTES) {
        "尾注按脚注表达（编号语义有差异）"
    } else if str_eq(feature, NUM_EDGE) {
        "编号列表的边角语义未建模"
    } else if str_eq(feature, MEDIA_MISSING) {
        "关系指向的媒体缺失"
    } else if str_eq(feature, FOOTNOTE_MISSING) {
        "脚注引用找不到对应定义"
    } else if str_eq(feature, TABLE_EDGE) {
        "表格合并的边角语义未建模"
    } else if str_eq(feature, SKIPPED) {
        "未建模的元素被跳过"
    } else {
        "已按损失规范处理"
    }
}

/// The aggregated loss message of a feature.
pub fn agg_message(feature: &str, count: u64) -> (r: String)
    ensures
        r@ == agg_message_spec(feature@, count as nat),
{
    let mut v: Vec<char> = Vec::new();
    push_str(&mut v, feature_text(feature));
    push_str(&mut v, "（");
    let d = fmt_u64(count);
    push_all(&mut v, d.as_slice());
    push_str(&mut v, " 处）");
    assert(v@ =~= agg_message_spec(feature@, count as nat));
    string_of(v.as_slice())
}

// ------------------------------------------------------------------ aggregation

/// The losses of one feature, gathered over a whole document.
#[derive(Debug)]
pub struct AggEntry {
    pub feature: String,
    pub class: LossClass,
    pub action: &'static str,
    /// How many places showed the loss.
    pub count: u64,
    /// Up to three distinct, non-empty examples, in the order first seen.
    pub samples: Vec<String>,
}

/// An aggregated feature as plain values.
pub struct AggEntryView {
    pub feature: Seq<char>,
    pub class: LossClass,
    pub action: Seq<char>,
    pub count: nat,
    pub samples: Seq<Seq<char>>,
}

impl View for AggEntry {
    type V = AggEntryView;

    open spec fn view(&self) -> AggEntryView {
        AggEntryView {
            feature: self.feature@,
            class: self.class,
            action: self.action@,
            count: self.count as nat,
            samples: self.samples@.map_values(|s: String| s@),
        }
    }
}

/// At most this many samples are kept per feature.
pub const MAX_SAMPLES: usize = 3;

/// The samples after one more occurrence with `sample`: it is kept when it is
/// not empty, not already kept, and fewer than three are kept.
pub open spec fn add_sample(samples: Seq<Seq<char>>, sample: Seq<char>) -> Seq<Seq<char>> {
    if samples.len() < MAX_SAMPLES && sample.len() > 0 && !samples.contains(sample) {
        samples.push(sample)
    } else {
        samples
    }
}

/// An entry after one more occurrence; the class and action of the first
/// occurrence stay.
pub open spec fn bumped(e: AggEntryView, sample: Seq<char>) -> AggEntryView {
    AggEntryView { count: e.count + 1, samples: add_sample(e.samples, sample), ..e }
}

/// The entry of a feature seen for the first time.
pub open spec fn first_seen(
    feature: Seq<char>,
    class: LossClass,
    action: Seq<char>,
    sample: Seq<char>,
) -> AggEntryView {
    bumped(
        AggEntryView { feature, class, action, count: 0, samples: Seq::empty() },
        sample,
    )
}

/// Index of the first entry whose feature is not below `feature`.
pub open spec fn agg_pos(es: Seq<AggEntryView>, feature: Seq<char>) -> nat
    decreases es.len(),
{
    if es.len() == 0 {
        0
    } else if seq_lt(es[0].feature, feature) {
        1 + agg_pos(es.drop_first(), feature)
    } else {
        0
    }
}

/// The entries after one occurrence of `feature`: its entry is bumped where
/// there is one, and a new one is put in its sorted place otherwise.
pub open spec fn agg_bump(
    es: Seq<AggEntryView>,
    feature: Seq<char>,
    class: LossClass,
    action: Seq<char>,
    sample: Seq<char>,
) -> Seq<AggEntryView> {
    let p = agg_pos(es, feature) as int;
    if p < es.len() && es[p].feature == feature {
        es.update(p, bumped(es[p], sample))
    } else {
        es.insert(p, first_seen(feature, class, action, sample))
    }
}

/// The entries are sorted by feature, each feature once, and each keeps at
/// most three distinct non-empty samples.
pub open spec fn agg_wf(es: Seq<AggEntryView>) -> bool {
    &&& forall|i: int, j: int| 0 <= i < j < es.len() ==> seq_lt(es[i].feature, es[j].feature)
    &&& forall|i: int| 0 <= i < es.len() ==> samples_wf(#[trigger] es[i].samples)
}

/// At most three samples, none empty, no two equal.
pub open spec fn samples_wf(ss: Seq<Seq<char>>) -> bool {
    &&& ss.len() <= MAX_SAMPLES
    &&& forall|k: int| 0 <= k < ss.len() ==> #[trigger] ss[k].len() > 0
    &&& forall|k: int, l: int| 0 <= k < l < ss.len() ==> ss[k] != ss[l]
}

/// Losses gathered per feature, in the order of the feature names.
#[derive(Debug)]
pub struct Agg {
    entries: Vec<AggEntry>,
}

impl Agg {
    /// The entries, as plain values, in feature order.
    pub closed spec fn entries(&self) -> Seq<AggEntryView> {
        self.entries@.map_values(|e: AggEntry| e@)
    }

    /// No losses yet.
    pub fn new() -> (r: Self)
        ensures
            r.entries() == Seq::<AggEntryView>::empty(),
    {
        let r = Agg { entries: Vec::new() };
        assert(r.entries() =~= Seq::<AggEntryView>::empty());
        r
    }

    /// The gathered entries, in feature order.
    pub fn entry_list(&self) -> (r: &Vec<AggEntry>)
        ensures
            r@.map_values(|e: AggEntry| e@) == self.entries(),
    {
        &self.entries
    }

    /// Records one place where `feature` lost something, with an example.
    pub fn bump(&mut self, feature: &str, class: LossClass, action: &'static str, sample: String)
        requires
            agg_wf(old(self).entries()),
            forall|i: int|
                0 <= i < old(self).entries().len() && #[trigger] old(self).entries()[i].feature
                    == feature@ ==> old(self).entries()[i].count < u64::MAX,
        ensures
            agg_wf(final(self).entries()),
            final(self).entries() == agg_bump(old(self).entries(), feature@, class, action@, sample@),
    {
        let ghost es = self.entries();
        let mut i: usize = 0;
        assert(es.skip(0) =~= es);
        while i < self.entries.len() && str_less(self.entries[i].feature.as_str(), feature)
            invariant
                i <= self.entries.len(),
                es == self.entries@.map_values(|e: AggEntry| e@),
                agg_pos(es, feature@) == i + agg_pos(es.skip(i as int), feature@),
                forall|j: int| 0 <= j < i ==> seq_lt(#[trigger] es[j].feature, feature@),
            decreases self.entries.len() - i,
        {
            assert(es.skip(i as int).drop_first() =~= es.skip(i + 1));
            i = i + 1;
        }
        proof {
            if i < es.len() {
                assert(!seq_lt(es.skip(i as int)[0].feature, feature@));
            }
            assert(agg_pos(es, feature@) == i);
        }
        if i < self.entries.len() && str_eq(self.entries[i].feature.as_str(), feature) {
            let mut e = self.entries.remove(i);
            assert(e@ == es[i as int]);
            e.count = e.count + 1;
            add_sample_into(&mut e.samples, sample);
            assert(e@ == bumped(es[i as int], sample@));
            self.entries.insert(i, e);
            assert(self.entries() =~= es.update(i as int, bumped(es[i as int], sample@)));
        } else {
            let mut e = AggEntry {
                feature: feature.to_owned(),
                class,
                action,
                count: 1,
                samples: Vec::new(),
            };
            assert(e.samples@.map_values(|s: String| s@) =~= Seq::<Seq<char>>::empty());
            add_sample_into(&mut e.samples, sample);
            assert(e@ == first_seen(feature@, class, action@, sample@));
            self.entries.insert(i, e);
            assert(self.entries() =~= es.insert(i as int, first_seen(feature@, class, action@, sample@)));
            proof {
                if i < es.len() {
                    lemma_seq_lt_order(es[i as int].feature, feature@);
                    assert forall|j: int| i < j < es.len() implies seq_lt(feature@, #[trigger] es[j].feature) by {
                        lemma_seq_lt_trans(feature@, es[i as int].feature, es[j].feature);
                    }
                }
            }
        }
        proof {
            let ns = self.entries();
            assert forall|k: int| 0 <= k < ns.len() implies samples_wf(#[trigger] ns[k].samples) by {
                if k == i {
                } else if k < i {
                    assert(ns[k] == es[k]);
                } else if ns.len() == es.len() {
                    assert(ns[k] == es[k]);
                } else {
                    assert(ns[k] == es[k - 1]);
                }
            }
        }
    }
}

/// How often `feature` was recorded: the count of its entry, 0 without one.
pub open spec fn agg_count(es: Seq<AggEntryView>, feature: Seq<char>) -> nat {
    let p = agg_pos(es, feature) as int;
    if p < es.len() && es[p].feature == feature {
        es[p].count
    } else {
        0
    }
}

proof fn lemma_agg_pos(es: Seq<AggEntryView>, g: Seq<char>)
    ensures
        agg_pos(es, g) <= es.len(),
        forall|j: int| 0 <= j < agg_pos(es, g) ==> seq_lt(#[trigger] es[j].feature, g),
        agg_pos(es, g) < es.len() ==> !seq_lt(es[agg_pos(es, g) as int].feature, g),
    decreases es.len(),
{
    if es.len() > 0 && seq_lt(es[0].feature, g) {
        lemma_agg_pos(es.drop_first(), g);
        assert forall|j: int| 0 <= j < agg_pos(es, g) implies seq_lt(#[trigger] es[j].feature, g) by {
            if j > 0 {
                assert(es[j] == es.drop_first()[j - 1]);
            }
        }
    }
}

proof fn lemma_agg_pos_is(es: Seq<AggEntryView>, g: Seq<char>, p: int)
    requires
        0 <= p <= es.len(),
        forall|j: int| 0 <= j < p ==> seq_lt(#[trigger] es[j].feature, g),
        p < es.len() ==> !seq_lt(es[p].feature, g),
    ensures
        agg_pos(es, g) == p,
    decreases es.len(),
{
    if p > 0 {
        assert(seq_lt(es[0].feature, g));
        assert forall|j: int| 0 <= j < p - 1 implies seq_lt(#[trigger] es.drop_first()[j].feature, g) by {
            assert(es.drop_first()[j] == es[j + 1]);
        }
        lemma_agg_pos_is(es.drop_first(), g, p - 1);
    }
}

/// Each recording of a feature adds one to its count and leaves the count of
/// every other feature as it was; the entries stay sorted and unique.
pub proof fn law_bump_counts_once(
    es: Seq<AggEntryView>,
    feature: Seq<char>,
    class: LossClass,
    action: Seq<char>,
    sample: Seq<char>,
    other: Seq<char>,
)
    requires
        agg_wf(es),
    ensures
        agg_count(agg_bump(es, feature, class, action, sample), other) == agg_count(es, other)
            + if other == feature { 1nat } else { 0nat },
{
    let ns = agg_bump(es, feature, class, action, sample);
    let p = agg_pos(es, feature) as int;
    let q = agg_pos(es, other) as int;
    lemma_agg_pos(es, feature);
    lemma_agg_pos(es, other);
    if p < es.len() && es[p].feature == feature {
        assert forall|j: int| 0 <= j < q implies seq_lt(#[trigger] ns[j].feature, other) by {
            assert(seq_lt(es[j].feature, other));
        }
        lemma_agg_pos_is(ns, other, q);
        if other == feature {
            lemma_seq_lt_order(feature, feature);
            lemma_agg_pos_is(es, feature, q);
        }
    } else {
        if other == feature {
            lemma_seq_lt_order(feature, feature);
            assert forall|j: int| 0 <= j < p implies seq_lt(#[trigger] ns[j].feature, other) by {
                assert(ns[j] == es[j]);
            }
            lemma_agg_pos_is(ns, other, p);
        } else if seq_lt(other, feature) {
            // Every entry from `p` on lies above `feature`, hence above `other`.
            assert(q <= p) by {
                if q > p {
                    assert(seq_lt(es[p].feature, other));
                    lemma_seq_lt_order(es[p].feature, feature);
                    lemma_seq_lt_trans(es[p].feature, other, feature);
                }
            }
            assert forall|j: int| 0 <= j < q implies seq_lt(#[trigger] ns[j].feature, other) by {
                assert(ns[j] == es[j]);
            }
            if q == p {
                lemma_seq_lt_order(other, feature);
                if p < es.len() {
                    lemma_seq_lt_order(es[p].feature, feature);
                    lemma_seq_lt_trans(other, feature, es[p].feature);
                    lemma_seq_lt_order(other, es[p].feature);
                }
            } else {
                assert(ns[q] == es[q]);
            }
            lemma_agg_pos_is(ns, other, q);
        } else {
            lemma_seq_lt_order(other, feature);
            assert(q >= p) by {
                if q < p {
                    assert(seq_lt(es[q].feature, feature));
                    lemma_seq_lt_trans(es[q].feature, feature, other);
                }
            }
            assert forall|j: int| 0 <= j < q + 1 implies seq_lt(#[trigger] ns[j].feature, other) by {
                if j < p {
                    assert(ns[j] == es[j]);
                    lemma_seq_lt_trans(es[j].feature, feature, other);
                } else if j > p {
                    assert(ns[j] == es[j - 1]);
                }
            }
            if q < es.len() {
                assert(ns[q + 1] == es[q]);
            }
            lemma_agg_pos_is(ns, other, q + 1);
        }
    }
}

/// `join` with a string separator.
pub open spec fn join_str(segs: Seq<Seq<char>>, sep: Seq<char>) -> Seq<char>
    decreases segs.len(),
{
    if segs.len() == 0 {
        Seq::empty()
    } else if segs.len() == 1 {
        segs[0]
    } else {
        join_str(segs.drop_last(), sep) + sep + segs.last()
    }
}

/// The detail text of an aggregated feature: its count, then its samples.
pub open spec fn agg_detail(count: nat, samples: Seq<Seq<char>>) -> Seq<char> {
    if samples.len() == 0 {
        "count="@ + dec(count)
    } else {
        "count="@ + dec(count) + "; sample="@ + join_str(samples, " | "@)
    }
}

/// One event of the loss log: one per aggregated feature.
#[derive(Debug)]
pub struct AggRecord {
    pub class: LossClass,
    pub feature: String,
    pub action: &'static str,
    pub detail: String,
    pub message: String,
}

/// The event that an aggregated entry becomes.
pub open spec fn record_of(r: AggRecord, e: AggEntryView) -> bool {
    &&& r.class == e.class
    &&& r.feature@ == e.feature
    &&& r.action@ == e.action
    &&& r.detail@ == agg_detail(e.count, e.samples)
    &&& r.message@ == agg_message_spec(e.feature, e.count)
}

impl Agg {
    /// The loss events, one per feature, in feature order.
    pub fn flush(self) -> (r: Vec<AggRecord>)
        ensures
            r.len() == self.entries().len(),
            forall|i: int| 0 <= i < r.len() ==> record_of(#[trigger] r@[i], self.entries()[i]),
    {
        let ghost es = self.entries();
        let mut out: Vec<AggRecord> = Vec::new();
        let mut i: usize = 0;
        while i < self.entries.len()
            invariant
                i <= self.entries.len(),
                es == self.entries@.map_values(|e: AggEntry| e@),
                out.len() == i,
                forall|j: int| 0 <= j < i ==> record_of(#[trigger] out@[j], es[j]),
            decreases self.entries.len() - i,
        {
            let e = &self.entries[i];
            assert(e@ == es[i as int]);
            let rec = AggRecord {
                class: e.class,
                feature: e.feature.clone(),
                action: e.action,
                detail: detail_text(e.count, &e.samples),
                message: agg_message(e.feature.as_str(), e.count),
            };
            out.push(rec);
            i = i + 1;
        }
        out
    }
}

/// The detail text of a count and its samples.
fn detail_text(count: u64, samples: &Vec<String>) -> (r: String)
    ensures
        r@ == agg_detail(count as nat, samples@.map_values(|s: String| s@)),
{
    let ghost ss = samples@.map_values(|s: String| s@);
    let mut v: Vec<char> = Vec::new();
    push_str(&mut v, "count=");
    let d = fmt_u64(count);
    push_all(&mut v, d.as_slice());
    if samples.len() == 0 {
        assert(v@ =~= agg_detail(count as nat, ss));
        return string_of(v.as_slice());
    }
    push_str(&mut v, "; sample=");
    let ghost head = v@;
    let mut k: usize = 0;
    while k < samples.len()
        invariant
            k <= samples.len(),
            ss == samples@.map_values(|s: String| s@),
            v@ == head + join_str(ss.take(k as int), " | "@),
        decreases samples.len() - k,
    {
        if k > 0 {
            push_str(&mut v, " | ");
        }
        push_str(&mut v, samples[k].as_str());
        proof {
            let t = ss.take(k + 1);
            assert(t.drop_last() =~= ss.take(k as int));
            assert(t.last() == ss[k as int]);
            if k == 0 {
                assert(ss.take(0) =~= Seq::<Seq<char>>::empty());
            }
        }
        k = k + 1;
        assert(v@ =~= head + join_str(ss.take(k as int), " | "@));
    }
    assert(ss.take(samples.len() as int) =~= ss);
    assert(v@ =~= agg_detail(count as nat, ss));
    string_of(v.as_slice())
}

/// Keeps `sample` among `samples` as `add_sample` says.
fn add_sample_into(samples: &mut Vec<String>, sample: String)
    requires
        samples_wf(old(samples)@.map_values(|s: String| s@)),
    ensures
        final(samples)@.map_values(|s: String| s@) == add_sample(
            old(samples)@.map_values(|s: String| s@),
            sample@,
        ),
        samples_wf(final(samples)@.map_values(|s: String| s@)),
{
    let ghost ss = samples@.map_values(|s: String| s@);
    if samples.len() >= MAX_SAMPLES || sample.as_str().is_empty() {
        return;
    }
    let mut k: usize = 0;
    while k < samples.len()
        invariant
            k <= samples.len(),
            ss == samples@.map_values(|s: String| s@),
            samples_wf(ss),
            forall|j: int| 0 <= j < k ==> ss[j] != sample@,
        decreases samples.len() - k,
    {
        if str_eq(samples[k].as_str(), sample.as_str()) {
            assert(ss.contains(sample@)) by { assert(ss[k as int] == sample@); }
            return;
        }
        k = k + 1;
    }
    assert(!ss.contains(sample@));
    samples.push(sample);
    assert(samples@.map_values(|s: String| s@) =~= ss.push(sample@));
    proof {
        let ns = ss.push(sample@);
        assert forall|k1: int, l: int| 0 <= k1 < l < ns.len() implies ns[k1] != ns[l] by {
            if l == ss.len() {
                assert(ss.contains(ss[k1]));
            }
        }
    }
}

// ------------------------------------------------------------------ tracked changes

/// Tracked-change statistics of a document.
#[derive(Debug)]
pub struct TrackedStats {
    /// Per author: inserted and deleted regions (each author once).
    pub authors: Vec<(String, u64, u64)>,
    /// Whether the document turns change tracking on.
    pub enabled: bool,
}

/// All inserted and deleted regions, over all authors.
pub open spec fn regions_total(s: Seq<(String, u64, u64)>) -> int
    decreases s.len(),
{
    if s.len() == 0 {
        0
    } else {
        regions_total(s.drop_last()) + s.last().1 + s.last().2
    }
}

impl TrackedStats {
    /// No tracked changes.
    pub fn new() -> (r: Self)
        ensures
            r.authors@.len() == 0,
            !r.enabled,
    {
        TrackedStats { authors: Vec::new(), enabled: false }
    }

    /// All tracked regions of the document.
    pub fn total(&self) -> (r: u64)
        requires
            regions_total(self.authors@) <= u64::MAX,
        ensures
            r == regions_total(self.authors@),
    {
        let mut sum: u64 = 0;
        let mut i: usize = 0;
        while i < self.authors.len()
            invariant
                i <= self.authors.len(),
                sum == regions_total(self.authors@.take(i as int)),
                regions_total(self.authors@) <= u64::MAX,
            decreases self.authors.len() - i,
        {
            let ghost t = self.authors@.take(i + 1);
            assert(t.drop_last() =~= self.authors@.take(i as int));
            proof { lemma_regions_total_prefix(self.authors@, i + 1); }
            sum = sum + self.authors[i].1 + self.authors[i].2;
            i = i + 1;
        }
        assert(self.authors@.take(self.authors.len() as int) =~= self.authors@);
        sum
    }
}

proof fn lemma_regions_total_prefix(s: Seq<(String, u64, u64)>, k: int)
    requires
        0 <= k <= s.len(),
    ensures
        regions_total(s.take(k)) <= regions_total(s),
    decreases s.len() - k,
{
    if k < s.len() {
        lemma_regions_total_prefix(s, k + 1);
        assert(s.take(k + 1).drop_last() =~= s.take(k));
    } else {
        assert(s.take(k) =~= s);
    }
}

// ------------------------------------------------------------------ Office math text

/// The text of the `m:t` elements of a math tree, in document order.
pub open spec fn m_text_of(el: El) -> Seq<char>
    decreases el, 0nat,
{
    (if el_is(el, "m"@, "t"@) { el.text@ } else { Seq::empty() }) + m_text_seq(el.children@)
}

/// The math text of each element of `cs`, concatenated.
pub open spec fn m_text_seq(cs: Seq<El>) -> Seq<char>
    decreases cs, 1nat,
{
    if cs.len() == 0 {
        Seq::empty()
    } else {
        m_text_seq(cs.drop_last()) + m_text_of(cs.last())
    }
}

fn m_text_into(el: &El, out: &mut Vec<char>)
    ensures
        final(out)@ == old(out)@ + m_text_of(*el),
    decreases el,
{
    let ghost start = out@;
    if el.is("m", "t") {
        crate::text::push_str(out, el.text.as_str());
    }
    let ghost own = if el_is(*el, "m"@, "t"@) { el.text@ } else { Seq::<char>::empty() };
    assert(out@ =~= start + own);
    let mut i: usize = 0;
    while i < el.children.len()
        invariant
            i <= el.children.len(),
            out@ == start + own + m_text_seq(el.children@.take(i as int)),
        decreases el.children.len() - i,
    {
        m_text_into(&el.children[i], out);
        proof {
            let t = el.children@.take(i + 1);
            assert(t.drop_last() =~= el.children@.take(i as int));
        }
        i = i + 1;
        assert(out@ =~= start + own + m_text_seq(el.children@.take(i as int)));
    }
    assert(el.children@.take(el.children.len() as int) =~= el.children@);
    assert(out@ =~= start + m_text_of(*el));
}

/// The text of an Office math element: its `m:t` texts in document order.
pub fn collect_m_text(el: &El) -> (r: String)
    ensures
        r@ == m_text_of(*el),
{
    let mut out: Vec<char> = Vec::new();
    m_text_into(el, &mut out);
    assert(out@ =~= m_text_of(*el));
    string_of(out.as_slice())
}

} // verus!
