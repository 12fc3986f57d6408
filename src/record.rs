use vstd::prelude::*;

verus! {

/// One key/value pair of a structured-data element.
pub struct SdParam {
    pub name: Vec<u8>,
    pub value: Vec<u8>,
}

/// The normalized form of one log event: the fields of a syslog header, the
/// structured-data pairs and the free-form message, as raw bytes.
pub struct Record {
    pub facility: u8,
    pub severity: u8,
    pub ts: Vec<u8>,
    pub hostname: Vec<u8>,
    pub appname: Option<Vec<u8>>,
    pub procid: Option<Vec<u8>>,
    pub msgid: Option<Vec<u8>>,
    pub sd: Vec<SdParam>,
    pub msg: Option<Vec<u8>>,
}

/// The mathematical value of a `Record`.
pub struct RecordModel {
    pub facility: nat,
    pub severity: nat,
    pub ts: Seq<u8>,
    pub hostname: Seq<u8>,
    pub appname: Option<Seq<u8>>,
    pub procid: Option<Seq<u8>>,
    pub msgid: Option<Seq<u8>>,
    pub sd: Seq<(Seq<u8>, Seq<u8>)>,
    pub msg: Option<Seq<u8>>,
}

pub open spec fn opt_view(o: Option<Vec<u8>>) -> Option<Seq<u8>> {
    match o {
        Some(v) => Some(v@),
        None => None,
    }
}

pub open spec fn params_view(ps: Seq<SdParam>) -> Seq<(Seq<u8>, Seq<u8>)> {
    Seq::new(ps.len(), |i: int| (ps[i].name@, ps[i].value@))
}

impl View for Record {
    type V = RecordModel;

    open spec fn view(&self) -> RecordModel {
        RecordModel {
            facility: self.facility as nat,
            severity: self.severity as nat,
            ts: self.ts@,
            hostname: self.hostname@,
            appname: opt_view(self.appname),
            procid: opt_view(self.procid),
            msgid: opt_view(self.msgid),
            sd: params_view(self.sd@),
            msg: opt_view(self.msg),
        }
    }
}

} // verus!
