//! ECM sections out of an MPEG transport stream.

use libmpegts::psi::Psi;
use libmpegts::slicer::TsSlicer;
use libmpegts::ts::TsPacketRef;
use vstd::prelude::*;
use vstd::slice::slice_to_vec;

use crate::text::{chars_of, starts_with};

verus! {

use crate::text::has_prefix;

/// The slicer of `libmpegts`, which cuts a stream of bytes into packets.
#[verifier::external_type_specification]
#[verifier::external_body]
pub struct ExTsSlicer(TsSlicer);

/// The assembler of `libmpegts`, which puts sections together from packets.
#[verifier::external_type_specification]
#[verifier::external_body]
pub struct ExPsi(Psi);

/// The bytes of an incomplete packet that a slicer holds.
pub uninterp spec fn slicer_pending(slicer: TsSlicer) -> Seq<u8>;

/// What `TsSlicer::slice` makes of a chunk of bytes while it holds `pending`:
/// the packets, and what it holds then.
pub uninterp spec fn ts_sliced(pending: Seq<u8>, chunk: Seq<u8>) -> (Seq<Seq<u8>>, Seq<u8>);

/// The bytes of all fields of an assembler, one field after the other.
pub uninterp spec fn psi_state(psi: Psi) -> Seq<u8>;

/// The state that `Psi::new` starts an assembler in.
pub uninterp spec fn psi_start(table_id: u8) -> Seq<u8>;

/// What `Psi::assemble` makes of a packet in this state: the section that the
/// packet completes, and the next state.
pub uninterp spec fn psi_assembled(state: Seq<u8>, packet: Seq<u8>) -> (
    Option<Seq<u8>>,
    Seq<u8>,
);

/// The bytes of every packet.
pub open spec fn packet_bytes(packets: Seq<[u8; 188]>) -> Seq<Seq<u8>> {
    packets.map_values(|packet: [u8; 188]| packet@)
}

/// The bytes of every section.
pub open spec fn section_bytes(sections: Seq<Vec<u8>>) -> Seq<Seq<u8>> {
    sections.map_values(|section: Vec<u8>| section@)
}

/// Makes a slicer.
///
/// Trusted: `TsSlicer::new`. The slicer holds nothing yet.
#[verifier::external_body]
fn new_slicer() -> (r: TsSlicer)
    ensures
        slicer_pending(r) == Seq::<u8>::empty(),
{
    TsSlicer::new()
}

/// Cuts a chunk of bytes into packets.
///
/// Trusted: `TsSlicer::slice`, its iterator run to the end. The packets, and
/// what the slicer holds afterwards, depend on what it held and on the chunk
/// alone.
#[verifier::external_body]
fn slice_packets(slicer: &mut TsSlicer, chunk: &[u8]) -> (r: Vec<[u8; 188]>)
    ensures
        (packet_bytes(r@), slicer_pending(*final(slicer))) == ts_sliced(
            slicer_pending(*old(slicer)),
            chunk@,
        ),
{
    slicer.slice(chunk).map(|packet| *packet.as_ref()).collect()
}

/// Makes an assembler.
///
/// Trusted: `Psi::new`. The state of the assembler depends on `table_id` alone.
#[verifier::external_body]
fn new_psi(table_id: u8) -> (r: Psi)
    ensures
        psi_state(r) == psi_start(table_id),
{
    Psi::new(table_id)
}

/// Gives a packet to an assembler.
///
/// Trusted: `Psi::assemble`. The section that comes of it, and the state of the
/// assembler afterwards, depend on its state and on the packet alone.
#[verifier::external_body]
fn assemble(psi: &mut Psi, packet: &[u8; 188]) -> (r: Option<Vec<u8>>)
    ensures
        psi_state(*final(psi)) == psi_assembled(psi_state(*old(psi)), packet@).1,
        match (r, psi_assembled(psi_state(*old(psi)), packet@).0) {
            (Some(section), Some(expected)) => section@ == expected,
            (None, None) => true,
            _ => false,
        },
{
    psi.assemble(&TsPacketRef::from(packet)).map(|section| section.to_vec())
}

/// The PID of a packet: 13 bits in its second and third byte.
pub open spec fn pid_of(packet: Seq<u8>) -> int {
    (packet[1] % 32) * 256 + packet[2]
}

/// The PID of a packet.
///
/// Trusted: `TsPacketRef::pid` takes 13 bits out of the second and the third
/// byte.
#[verifier::external_body]
fn packet_pid(packet: &[u8; 188]) -> (r: u16)
    ensures
        r == pid_of(packet@),
{
    TsPacketRef::from(packet).pid()
}

/// Whether a section is an ECM, even or odd.
pub open spec fn is_ecm(section: Seq<u8>) -> bool {
    section.len() > 0 && (section[0] == 0x80 || section[0] == 0x81)
}

/// Whether a section is an ECM of another parity than the last one, so that
/// control words have changed.
pub open spec fn is_new_ecm(current_table_id: Option<u8>, section: Seq<u8>) -> bool {
    is_ecm(section) && current_table_id != Some(section[0])
}

/// The ECMs of `sections` that have another parity than the last one before
/// them, and the table_id of the last ECM.
pub open spec fn new_ecms(current_table_id: Option<u8>, sections: Seq<Seq<u8>>) -> (
    Seq<Seq<u8>>,
    Option<u8>,
)
    decreases sections.len(),
{
    if sections.len() == 0 {
        (Seq::empty(), current_table_id)
    } else {
        let (ecms, table_id) = new_ecms(current_table_id, sections.drop_last());
        if is_new_ecm(table_id, sections.last()) {
            (ecms.push(sections.last()), Some(sections.last()[0]))
        } else {
            (ecms, table_id)
        }
    }
}

/// The sections that an assembler in this state puts together from the packets
/// with this PID, and the state that it is in then.
pub open spec fn sections_of(state: Seq<u8>, ecm_pid: u16, packets: Seq<Seq<u8>>) -> (
    Seq<Seq<u8>>,
    Seq<u8>,
)
    decreases packets.len(),
{
    if packets.len() == 0 {
        (Seq::empty(), state)
    } else {
        let (sections, before) = sections_of(state, ecm_pid, packets.drop_last());
        if pid_of(packets.last()) != ecm_pid {
            (sections, before)
        } else {
            let (section, after) = psi_assembled(before, packets.last());
            match section {
                Some(section) => (sections.push(section), after),
                None => (sections, after),
            }
        }
    }
}

/// Finds the ECMs for which control words are due in a transport stream.
pub struct EcmReader {
    slicer: TsSlicer,
    psi: Psi,
    ecm_pid: u16,
    current_table_id: Option<u8>,
}

/// The state of an `EcmReader`: the incomplete packet, the state of the
/// assembler, the PID that it reads, and the table_id of the last ECM.
pub struct EcmReaderView {
    pub pending: Seq<u8>,
    pub psi: Seq<u8>,
    pub ecm_pid: u16,
    pub current_table_id: Option<u8>,
}

impl View for EcmReader {
    type V = EcmReaderView;

    closed spec fn view(&self) -> EcmReaderView {
        EcmReaderView {
            pending: slicer_pending(self.slicer),
            psi: psi_state(self.psi),
            ecm_pid: self.ecm_pid,
            current_table_id: self.current_table_id,
        }
    }
}

impl EcmReader {
    /// A reader at the start of a stream.
    pub fn new(ecm_pid: u16) -> (r: EcmReader)
        ensures
            r@ == (EcmReaderView {
                pending: Seq::empty(),
                psi: psi_start(0),
                ecm_pid,
                current_table_id: None,
            }),
    {
        EcmReader { slicer: new_slicer(), psi: new_psi(0), ecm_pid, current_table_id: None }
    }

    /// Reads the next bytes of the stream. The sections in the result are the
    /// ECMs for which to request control words, in their order.
    pub fn read(&mut self, chunk: &[u8]) -> (r: Vec<Vec<u8>>)
        ensures
            ({
                let (packets, pending) = ts_sliced(old(self)@.pending, chunk@);
                let (sections, psi) = sections_of(old(self)@.psi, old(self)@.ecm_pid, packets);
                let (ecms, current_table_id) = new_ecms(old(self)@.current_table_id, sections);
                &&& section_bytes(r@) == ecms
                &&& final(self)@ == (EcmReaderView {
                    pending,
                    psi,
                    current_table_id,
                    ..old(self)@
                })
            }),
    {
        let packets = slice_packets(&mut self.slicer, chunk);
        let sections = self.assemble_sections(packets.as_slice());
        self.select_ecms(sections)
    }

    /// The sections that packets complete.
    fn assemble_sections(&mut self, packets: &[[u8; 188]]) -> (r: Vec<Vec<u8>>)
        ensures
            section_bytes(r@) == sections_of(
                old(self)@.psi,
                old(self)@.ecm_pid,
                packet_bytes(packets@),
            ).0,
            final(self)@ == (EcmReaderView {
                psi: sections_of(
                    old(self)@.psi,
                    old(self)@.ecm_pid,
                    packet_bytes(packets@),
                ).1,
                ..old(self)@
            }),
    {
        let ghost start = self@;
        let ghost all = packet_bytes(packets@);
        let mut sections: Vec<Vec<u8>> = Vec::new();
        assert(section_bytes(sections@) =~= Seq::<Seq<u8>>::empty());
        for i in 0..packets.len()
            invariant
                all == packet_bytes(packets@),
                self@ == (EcmReaderView { psi: self@.psi, ..start }),
                (section_bytes(sections@), self@.psi) == sections_of(
                    start.psi,
                    start.ecm_pid,
                    all.take(i as int),
                ),
        {
            proof {
                assert(all.take(i + 1).drop_last() =~= all.take(i as int));
                assert(all.take(i + 1).last() == packets@[i as int]@);
            }
            let ghost found = section_bytes(sections@);
            if packet_pid(&packets[i]) == self.ecm_pid {
                match assemble(&mut self.psi, &packets[i]) {
                    Some(section) => {
                        sections.push(section);
                        assert(section_bytes(sections@) =~= found.push(section@));
                    },
                    None => {},
                }
            }
        }
        assert(all.take(all.len() as int) =~= all);
        sections
    }

    /// Leaves out what is no ECM, and every ECM that has the parity of the last
    /// one.
    pub fn select_ecms(&mut self, sections: Vec<Vec<u8>>) -> (r: Vec<Vec<u8>>)
        ensures
            (section_bytes(r@), final(self)@.current_table_id) == new_ecms(
                old(self)@.current_table_id,
                section_bytes(sections@),
            ),
            final(self)@ == (EcmReaderView {
                current_table_id: final(self)@.current_table_id,
                ..old(self)@
            }),
    {
        let ghost start = self@;
        let ghost all = section_bytes(sections@);
        let mut ecms: Vec<Vec<u8>> = Vec::new();
        assert(section_bytes(ecms@) =~= Seq::<Seq<u8>>::empty());
        for i in 0..sections.len()
            invariant
                all == section_bytes(sections@),
                self@ == (EcmReaderView { current_table_id: self@.current_table_id, ..start }),
                (section_bytes(ecms@), self@.current_table_id) == new_ecms(
                    start.current_table_id,
                    all.take(i as int),
                ),
        {
            proof {
                assert(all.take(i + 1).drop_last() =~= all.take(i as int));
                assert(all.take(i + 1).last() == sections@[i as int]@);
            }
            let ghost found = section_bytes(ecms@);
            if self.take_section(sections[i].as_slice()) {
                let ecm = slice_to_vec(sections[i].as_slice());
                ecms.push(ecm);
                assert(section_bytes(ecms@) =~= found.push(sections@[i as int]@));
            }
        }
        assert(all.take(all.len() as int) =~= all);
        ecms
    }

    /// Whether to request control words for a section. If so, its parity is
    /// remembered.
    pub fn take_section(&mut self, section: &[u8]) -> (r: bool)
        ensures
            r == is_new_ecm(old(self)@.current_table_id, section@),
            r <==> section@.len() > 0 && (section@[0] == 0x80 || section@[0] == 0x81)
                && old(self)@.current_table_id != Some(section@[0]),
            final(self)@ == (EcmReaderView {
                current_table_id: if r {
                    Some(section@[0])
                } else {
                    old(self)@.current_table_id
                },
                ..old(self)@
            }),
    {
        if section.len() == 0 {
            return false;
        }
        let table_id = section[0];
        if table_id != 0x80 && table_id != 0x81 {
            return false;
        }
        let known = match self.current_table_id {
            Some(current) => current == table_id,
            None => false,
        };
        if known {
            return false;
        }
        self.current_table_id = Some(table_id);
        true
    }
}

/// Refuses every URL that is not one of HTTP.
pub fn check_url(url: &str) -> (r: Result<(), String>)
    ensures
        r is Ok <==> has_prefix(url@, "http://"@),
        r matches Err(text) ==> text@ == "only http:// URLs are supported"@,
{
    if starts_with(chars_of(url).as_slice(), chars_of("http://").as_slice()) {
        Ok(())
    } else {
        Err("only http:// URLs are supported".to_string())
    }
}

/// The sections that are selected are ECMs, and the parity changes from each to
/// the next: none is requested twice in a row.
pub proof fn law_ecms_alternate(current_table_id: Option<u8>, sections: Seq<Seq<u8>>)
    ensures
        ({
            let (ecms, last) = new_ecms(current_table_id, sections);
            &&& forall|i: int| 0 <= i < ecms.len() ==> is_ecm(#[trigger] ecms[i])
            &&& forall|i: int, j: int|
                0 <= i && j == i + 1 && j < ecms.len() ==> #[trigger] ecms[i][0]
                    != #[trigger] ecms[j][0]
            &&& ecms.len() > 0 ==> Some(ecms[0][0]) != current_table_id
            &&& last == if ecms.len() > 0 {
                Some(ecms.last()[0])
            } else {
                current_table_id
            }
        }),
    decreases sections.len(),
{
    if sections.len() > 0 {
        law_ecms_alternate(current_table_id, sections.drop_last());
    }
}

/// It makes no difference to what is selected how the sections are parted.
pub proof fn law_selection_in_parts(
    current_table_id: Option<u8>,
    first: Seq<Seq<u8>>,
    second: Seq<Seq<u8>>,
)
    ensures
        ({
            let (ecms, table_id) = new_ecms(current_table_id, first);
            let (more, last) = new_ecms(table_id, second);
            new_ecms(current_table_id, first + second) == (ecms + more, last)
        }),
    decreases second.len(),
{
    let (ecms, table_id) = new_ecms(current_table_id, first);
    if second.len() == 0 {
        assert(first + second =~= first);
        assert(ecms + Seq::<Seq<u8>>::empty() =~= ecms);
    } else {
        law_selection_in_parts(current_table_id, first, second.drop_last());
        assert((first + second).drop_last() =~= first + second.drop_last());
        let more = new_ecms(table_id, second.drop_last()).0;
        assert((ecms + more).push(second.last()) =~= ecms + more.push(second.last()));
    }
}

/// It makes no difference to the sections how the packets are parted.
pub proof fn law_sections_in_parts(
    state: Seq<u8>,
    ecm_pid: u16,
    first: Seq<Seq<u8>>,
    second: Seq<Seq<u8>>,
)
    ensures
        ({
            let (sections, between) = sections_of(state, ecm_pid, first);
            let (more, last) = sections_of(between, ecm_pid, second);
            sections_of(state, ecm_pid, first + second) == (sections + more, last)
        }),
    decreases second.len(),
{
    let (sections, between) = sections_of(state, ecm_pid, first);
    if second.len() == 0 {
        assert(first + second =~= first);
        assert(sections + Seq::<Seq<u8>>::empty() =~= sections);
    } else {
        law_sections_in_parts(state, ecm_pid, first, second.drop_last());
        assert((first + second).drop_last() =~= first + second.drop_last());
        let (more, before) = sections_of(between, ecm_pid, second.drop_last());
        if let Some(section) = psi_assembled(before, second.last()).0 {
            assert((sections + more).push(section) =~= sections + more.push(section));
        }
    }
}

/// Packets with another PID change nothing.
pub proof fn law_other_pids_do_not_count(
    state: Seq<u8>,
    ecm_pid: u16,
    packets: Seq<Seq<u8>>,
)
    ensures
        sections_of(state, ecm_pid, packets) == sections_of(
            state,
            ecm_pid,
            packets.filter(|packet: Seq<u8>| pid_of(packet) == ecm_pid),
        ),
    decreases packets.len(),
{
    let kept = |packet: Seq<u8>| pid_of(packet) == ecm_pid;
    reveal(Seq::filter);
    if packets.len() > 0 {
        law_other_pids_do_not_count(state, ecm_pid, packets.drop_last());
        let rest = packets.drop_last().filter(kept);
        if kept(packets.last()) {
            assert(rest.push(packets.last()).drop_last() =~= rest);
        }
    }
}

/// No ECM is left out: a section that starts with 0x80 or 0x81 is selected,
/// whatever else it holds and however long it is, unless the last ECM before it
/// started with the same byte. What starts with another byte, or is empty, is
/// not, and changes nothing.
pub proof fn law_no_ecm_is_left_out(
    current_table_id: Option<u8>,
    sections: Seq<Seq<u8>>,
    section: Seq<u8>,
)
    ensures
        new_ecms(current_table_id, Seq::empty()) == (Seq::<Seq<u8>>::empty(), current_table_id),
        ({
            let (ecms, last) = new_ecms(current_table_id, sections);
            let (more, after) = new_ecms(current_table_id, sections.push(section));
            if section.len() > 0 && (section[0] == 0x80 || section[0] == 0x81) && last != Some(
                section[0],
            ) {
                more == ecms.push(section) && after == Some(section[0])
            } else {
                more == ecms && after == last
            }
        }),
{
    assert(sections.push(section).drop_last() =~= sections);
}

/// A packet is given to the assembler exactly if the lower five bits of its
/// second byte and its third byte make up the PID. The section that it completes
/// is added to the others.
pub proof fn law_packets_are_assembled(
    state: Seq<u8>,
    ecm_pid: u16,
    packets: Seq<Seq<u8>>,
    packet: Seq<u8>,
)
    ensures
        sections_of(state, ecm_pid, Seq::empty()) == (Seq::<Seq<u8>>::empty(), state),
        ({
            let (sections, before) = sections_of(state, ecm_pid, packets);
            let (more, after) = sections_of(state, ecm_pid, packets.push(packet));
            if (packet[1] % 32) * 256 + packet[2] == ecm_pid {
                &&& after == psi_assembled(before, packet).1
                &&& psi_assembled(before, packet).0 matches Some(section) ==> more
                    == sections.push(section)
                &&& psi_assembled(before, packet).0 is None ==> more == sections
            } else {
                more == sections && after == before
            }
        }),
{
    assert(packets.push(packet).drop_last() =~= packets);
}

/// Sections and packets are taken one for one, with all of their bytes.
pub proof fn law_bytes_of_each(sections: Seq<Vec<u8>>, packets: Seq<[u8; 188]>)
    ensures
        section_bytes(sections).len() == sections.len(),
        forall|i: int|
            0 <= i < sections.len() ==> #[trigger] section_bytes(sections)[i] == sections[i]@,
        packet_bytes(packets).len() == packets.len(),
        forall|i: int|
            0 <= i < packets.len() ==> #[trigger] packet_bytes(packets)[i] == packets[i]@,
{
}

} // verus!
