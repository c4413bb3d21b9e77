//! Records of the BTC light client that travel in the same wire format.

use crate::codec::{
    copy_bytes, decode_with, fields_view, fold_fields, lemma_fold_end, lemma_fold_start,
    lemma_fold_step, parse_fields, FieldModel, FieldValue, FieldValueModel,
};
use crate::wire::{lemma_views_empty, lemma_views_push, opt_view, views};
use vstd::prelude::*;

verus! {

/// A BTC header with what the light client knows of it: the header bytes,
/// its hash, its height and the total work up to it.
#[derive(Clone, Debug, PartialEq, Eq)]
pub struct BtcHeaderInfo {
    pub header: Vec<u8>,
    pub hash: Vec<u8>,
    pub height: u64,
    pub work: Vec<u8>,
}

/// Where a paged query stopped.
#[derive(Clone, Debug, PartialEq, Eq)]
pub struct PageResponse {
    pub next_key: Vec<u8>,
    pub total: u64,
}

/// The headers of the main chain, one page of them.
#[derive(Clone, Debug, PartialEq, Eq)]
pub struct QueryMainChainResponse {
    pub headers: Vec<BtcHeaderInfo>,
    pub pagination: Option<PageResponse>,
}

pub ghost struct HeaderInfoModel {
    pub header: Seq<u8>,
    pub hash: Seq<u8>,
    pub height: u64,
    pub work: Seq<u8>,
}

pub ghost struct PageModel {
    pub next_key: Seq<u8>,
    pub total: u64,
}

pub ghost struct MainChainModel {
    pub headers: Seq<HeaderInfoModel>,
    pub pagination: Option<PageModel>,
}

impl View for BtcHeaderInfo {
    type V = HeaderInfoModel;

    open spec fn view(&self) -> HeaderInfoModel {
        HeaderInfoModel { header: self.header@, hash: self.hash@, height: self.height, work: self.work@ }
    }
}

impl View for PageResponse {
    type V = PageModel;

    open spec fn view(&self) -> PageModel {
        PageModel { next_key: self.next_key@, total: self.total }
    }
}

impl View for QueryMainChainResponse {
    type V = MainChainModel;

    open spec fn view(&self) -> MainChainModel {
        MainChainModel { headers: views(self.headers@), pagination: opt_view(self.pagination) }
    }
}

pub open spec fn header_info_step(h: HeaderInfoModel, f: FieldModel) -> Option<HeaderInfoModel> {
    if f.number == 3 {
        match f.value {
            FieldValueModel::Varint(v) => Some(HeaderInfoModel { height: v, ..h }),
            _ => None,
        }
    } else if f.number == 1 || f.number == 2 || f.number == 4 {
        match f.value {
            FieldValueModel::Bytes(b) => Some(
                if f.number == 1 {
                    HeaderInfoModel { header: b, ..h }
                } else if f.number == 2 {
                    HeaderInfoModel { hash: b, ..h }
                } else {
                    HeaderInfoModel { work: b, ..h }
                },
            ),
            _ => None,
        }
    } else {
        Some(h)
    }
}

pub open spec fn header_info_steps() -> spec_fn(HeaderInfoModel, FieldModel) -> Option<HeaderInfoModel> {
    |h: HeaderInfoModel, f: FieldModel| header_info_step(h, f)
}

pub open spec fn decode_header_info_spec(s: Seq<u8>) -> Option<HeaderInfoModel> {
    decode_with(
        s,
        HeaderInfoModel { header: Seq::empty(), hash: Seq::empty(), height: 0, work: Seq::empty() },
        header_info_steps(),
    )
}

pub open spec fn page_step(p: PageModel, f: FieldModel) -> Option<PageModel> {
    if f.number == 1 {
        match f.value {
            FieldValueModel::Bytes(b) => Some(PageModel { next_key: b, ..p }),
            _ => None,
        }
    } else if f.number == 2 {
        match f.value {
            FieldValueModel::Varint(v) => Some(PageModel { total: v, ..p }),
            _ => None,
        }
    } else {
        Some(p)
    }
}

pub open spec fn page_steps() -> spec_fn(PageModel, FieldModel) -> Option<PageModel> {
    |p: PageModel, f: FieldModel| page_step(p, f)
}

pub open spec fn decode_page_spec(s: Seq<u8>) -> Option<PageModel> {
    decode_with(s, PageModel { next_key: Seq::empty(), total: 0 }, page_steps())
}

/// Decodes an embedded page record; a repeated occurrence merges into the
/// earlier one.
pub open spec fn merge_page(existing: Option<PageModel>, b: Seq<u8>) -> Option<PageModel> {
    match existing {
        Some(p) => decode_with(b, p, page_steps()),
        None => decode_page_spec(b),
    }
}

pub open spec fn main_chain_step(m: MainChainModel, f: FieldModel) -> Option<MainChainModel> {
    if f.number == 1 || f.number == 2 {
        match f.value {
            FieldValueModel::Bytes(b) => if f.number == 1 {
                match decode_header_info_spec(b) {
                    Some(h) => Some(MainChainModel { headers: m.headers.push(h), ..m }),
                    None => None,
                }
            } else {
                match merge_page(m.pagination, b) {
                    Some(p) => Some(MainChainModel { pagination: Some(p), ..m }),
                    None => None,
                }
            },
            _ => None,
        }
    } else {
        Some(m)
    }
}

pub open spec fn main_chain_steps() -> spec_fn(MainChainModel, FieldModel) -> Option<MainChainModel> {
    |m: MainChainModel, f: FieldModel| main_chain_step(m, f)
}

pub open spec fn decode_main_chain_spec(s: Seq<u8>) -> Option<MainChainModel> {
    decode_with(s, MainChainModel { headers: Seq::empty(), pagination: None }, main_chain_steps())
}

impl BtcHeaderInfo {
    /// Decodes a header record; `None` where the bytes are malformed.
    pub fn decode(s: &[u8]) -> (r: Option<BtcHeaderInfo>)
        ensures
            match r {
                Some(h) => decode_header_info_spec(s@) == Some(h@),
                None => decode_header_info_spec(s@) is None,
            },
    {
        let fields = match parse_fields(s) {
            Some(fs) => fs,
            None => return None,
        };
        let ghost fs = fields_view(fields@);
        let mut h = BtcHeaderInfo { header: Vec::new(), hash: Vec::new(), height: 0, work: Vec::new() };
        proof {
            lemma_fold_start(fs, h@, header_info_steps());
        }
        let mut i: usize = 0;
        while i < fields.len()
            invariant
                fs == fields_view(fields@),
                i <= fields.len(),
                decode_header_info_spec(s@) == fold_fields(fs.skip(i as int), h@, header_info_steps()),
            decreases fields.len() - i,
        {
            proof {
                lemma_fold_step(fs, i as int, h@, header_info_steps());
            }
            let f = &fields[i];
            if f.number == 3 {
                match &f.value {
                    FieldValue::Varint(v) => h.height = *v,
                    _ => return None,
                }
            } else if f.number == 1 || f.number == 2 || f.number == 4 {
                match &f.value {
                    FieldValue::Bytes(b) => {
                        if f.number == 1 {
                            h.header = copy_bytes(b);
                        } else if f.number == 2 {
                            h.hash = copy_bytes(b);
                        } else {
                            h.work = copy_bytes(b);
                        }
                    },
                    _ => return None,
                }
            }
            i += 1;
        }
        proof {
            lemma_fold_end(fs, h@, header_info_steps());
        }
        Some(h)
    }
}

impl PageResponse {
    /// Decodes a page record; `None` where the bytes are malformed.
    pub fn decode(s: &[u8]) -> (r: Option<PageResponse>)
        ensures
            match r {
                Some(p) => decode_page_spec(s@) == Some(p@),
                None => decode_page_spec(s@) is None,
            },
    {
        let init = PageResponse { next_key: Vec::new(), total: 0 };
        PageResponse::decode_onto(s, init)
    }

    /// Decodes on top of `init`, as a repeated occurrence of an embedded
    /// message merges into the earlier one.
    pub fn decode_onto(s: &[u8], init: PageResponse) -> (r: Option<PageResponse>)
        ensures
            match r {
                Some(p) => decode_with(s@, init@, page_steps()) == Some(p@),
                None => decode_with(s@, init@, page_steps()) is None,
            },
    {
        let fields = match parse_fields(s) {
            Some(fs) => fs,
            None => return None,
        };
        let ghost fs = fields_view(fields@);
        let ghost start = init@;
        let mut p = init;
        proof {
            lemma_fold_start(fs, p@, page_steps());
        }
        let mut i: usize = 0;
        while i < fields.len()
            invariant
                fs == fields_view(fields@),
                i <= fields.len(),
                decode_with(s@, init@, page_steps()) == fold_fields(fs.skip(i as int), p@, page_steps()),
            decreases fields.len() - i,
        {
            proof {
                lemma_fold_step(fs, i as int, p@, page_steps());
            }
            let f = &fields[i];
            if f.number == 1 {
                match &f.value {
                    FieldValue::Bytes(b) => p.next_key = copy_bytes(b),
                    _ => return None,
                }
            } else if f.number == 2 {
                match &f.value {
                    FieldValue::Varint(v) => p.total = *v,
                    _ => return None,
                }
            }
            i += 1;
        }
        proof {
            lemma_fold_end(fs, p@, page_steps());
        }
        Some(p)
    }
}

impl QueryMainChainResponse {
    /// Decodes a page of main-chain headers; `None` where the bytes are
    /// malformed.
    pub fn decode(s: &[u8]) -> (r: Option<QueryMainChainResponse>)
        ensures
            match r {
                Some(m) => decode_main_chain_spec(s@) == Some(m@),
                None => decode_main_chain_spec(s@) is None,
            },
    {
        let fields = match parse_fields(s) {
            Some(fs) => fs,
            None => return None,
        };
        let ghost fs = fields_view(fields@);
        let mut m = QueryMainChainResponse { headers: Vec::new(), pagination: None };
        proof {
            lemma_fold_start(fs, m@, main_chain_steps());
            lemma_views_empty::<BtcHeaderInfo>();
        }
        let mut i: usize = 0;
        while i < fields.len()
            invariant
                fs == fields_view(fields@),
                i <= fields.len(),
                decode_main_chain_spec(s@) == fold_fields(fs.skip(i as int), m@, main_chain_steps()),
            decreases fields.len() - i,
        {
            proof {
                lemma_fold_step(fs, i as int, m@, main_chain_steps());
            }
            let f = &fields[i];
            if f.number == 1 || f.number == 2 {
                match &f.value {
                    FieldValue::Bytes(b) => {
                        if f.number == 1 {
                            match BtcHeaderInfo::decode(b.as_slice()) {
                                Some(h) => {
                                    proof {
                                        lemma_views_push(m.headers@, h);
                                    }
                                    m.headers.push(h);
                                },
                                None => return None,
                            }
                        } else {
                            let merged = match m.pagination.take() {
                                Some(p) => PageResponse::decode_onto(b.as_slice(), p),
                                None => PageResponse::decode(b.as_slice()),
                            };
                            match merged {
                                Some(p) => m.pagination = Some(p),
                                None => return None,
                            }
                        }
                    },
                    _ => return None,
                }
            }
            i += 1;
        }
        proof {
            lemma_fold_end(fs, m@, main_chain_steps());
        }
        Some(m)
    }
}

} // verus!
