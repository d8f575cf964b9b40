//! The TuxGuitar binary format: song information and the channel table,
//! with strings stored as two-byte big-endian code units.
use crate::binary::{
    be_unsigned, byte_at, fits, int_at, is_surrogate, read_byte, read_bytes, read_int, read_short,
    read_unsigned_byte_string, wide_units, DecodeError,
};
use crate::song::{MidiChannel, Song};
use vstd::prelude::*;

verus! {

/// Whether the characters `cs` are the code units `u`, one for one.
pub open spec fn spells(cs: Seq<char>, u: Seq<int>) -> bool {
    &&& cs.len() == u.len()
    &&& forall|k: int| 0 <= k < u.len() ==> #[trigger] cs[k] as u32 == u[k]
}

/// The `n` bytes at `p` read as code units; a surrogate is an encoding error.
pub open spec fn wide_at(d: Seq<u8>, p: nat, n: nat) -> Result<(Seq<int>, nat), DecodeError> {
    if !fits(d.len(), p, n) || n % 2 == 1 {
        Err(DecodeError::Truncated)
    } else {
        let u = wide_units(d.subrange(p as int, (p + n) as int));
        if exists|k: int| 0 <= k < u.len() && is_surrogate(#[trigger] u[k]) {
            Err(DecodeError::Encoding)
        } else {
            Ok((u, p + n))
        }
    }
}

fn read_wide(data: &[u8], seek: &mut usize, n: usize) -> (r: Result<String, DecodeError>)
    ensures
        match wide_at(data@, *old(seek) as nat, n as nat) {
            Ok((u, q)) => r matches Ok(s) && spells(s@, u) && *final(seek) == q,
            Err(e) => r == Err::<String, DecodeError>(e),
        },
{
    let bytes = read_bytes(data, seek, n)?;
    read_unsigned_byte_string(&bytes)
}

/// A string whose length in code units comes first as one byte.
pub open spec fn short_wide_at(d: Seq<u8>, p: nat) -> Result<(Seq<int>, nat), DecodeError> {
    match byte_at(d, p) {
        Err(e) => Err(e),
        Ok((n, q)) => wide_at(d, q, n as nat * 2),
    }
}

fn read_short_wide(data: &[u8], seek: &mut usize) -> (r: Result<String, DecodeError>)
    ensures
        match short_wide_at(data@, *old(seek) as nat) {
            Ok((u, q)) => r matches Ok(s) && spells(s@, u) && *final(seek) == q,
            Err(e) => r == Err::<String, DecodeError>(e),
        },
{
    let n = read_byte(data, seek)?;
    read_wide(data, seek, n as usize * 2)
}

/// An unsigned big-endian 16-bit integer at `p`.
pub open spec fn ushort_at(d: Seq<u8>, p: nat) -> Result<(int, nat), DecodeError> {
    if fits(d.len(), p, 2) {
        Ok((be_unsigned(d, p as int, 2) as int, p + 2))
    } else {
        Err(DecodeError::Truncated)
    }
}

fn read_ushort(data: &[u8], seek: &mut usize) -> (r: Result<u16, DecodeError>)
    ensures
        match ushort_at(data@, *old(seek) as nat) {
            Ok((v, q)) => r is Ok && r->Ok_0 as int == v && *final(seek) == q,
            Err(e) => r == Err::<u16, DecodeError>(e),
        },
{
    proof {
        reveal_with_fuel(be_unsigned, 3);
    }
    let v = read_short(data, seek)?;
    if v < 0 {
        Ok((v as i32 + 0x1_0000) as u16)
    } else {
        Ok(v as u16)
    }
}

/// An unsigned big-endian 32-bit integer at `p`.
pub open spec fn uint_at(d: Seq<u8>, p: nat) -> Result<(int, nat), DecodeError> {
    if fits(d.len(), p, 4) {
        Ok((be_unsigned(d, p as int, 4) as int, p + 4))
    } else {
        Err(DecodeError::Truncated)
    }
}

fn read_uint(data: &[u8], seek: &mut usize) -> (r: Result<u32, DecodeError>)
    ensures
        match uint_at(data@, *old(seek) as nat) {
            Ok((v, q)) => r is Ok && r->Ok_0 as int == v && *final(seek) == q,
            Err(e) => r == Err::<u32, DecodeError>(e),
        },
{
    proof {
        reveal_with_fuel(be_unsigned, 5);
    }
    let v = read_int(data, seek)?;
    if v < 0 {
        Ok((v as i64 + 0x1_0000_0000) as u32)
    } else {
        Ok(v as u32)
    }
}

pub ghost struct ParamView {
    pub key: Seq<int>,
    pub value: int,
}

/// The first `k` channel parameters at `p`: each a key string and an
/// unsigned value; a key given again takes the later value.
pub open spec fn params_at(d: Seq<u8>, p: nat, k: nat) -> Result<(Seq<ParamView>, nat), DecodeError>
    decreases k,
{
    if k == 0 {
        Ok((Seq::empty(), p))
    } else {
        match params_at(d, p, (k - 1) as nat) {
            Err(e) => Err(e),
            Ok((ps, q)) => match short_wide_at(d, q) {
                Err(e) => Err(e),
                Ok((key, q2)) => match uint_at(d, q2) {
                    Err(e) => Err(e),
                    Ok((value, r)) => Ok((insert_param(ps, ParamView { key, value }), r)),
                },
            },
        }
    }
}

/// The last position of the key `k` among `ps`, if it is there.
pub open spec fn key_position(ps: Seq<ParamView>, k: Seq<int>) -> Option<int>
    decreases ps.len(),
{
    if ps.len() == 0 {
        None
    } else if ps.last().key == k {
        Some(ps.len() - 1)
    } else {
        key_position(ps.drop_last(), k)
    }
}

/// `ps` with the parameter `p` set: a key already there takes the new
/// value in its place, a new key comes last.
pub open spec fn insert_param(ps: Seq<ParamView>, p: ParamView) -> Seq<ParamView> {
    match key_position(ps, p.key) {
        Some(i) => ps.update(i, p),
        None => ps.push(p),
    }
}

proof fn lemma_key_position(ps: Seq<ParamView>, k: Seq<int>)
    ensures
        key_position(ps, k) is None <==> forall|i: int| 0 <= i < ps.len() ==> (#[trigger] ps[i]).key != k,
        key_position(ps, k) matches Some(i) ==> 0 <= i < ps.len() && ps[i].key == k
            && forall|j: int| i < j < ps.len() ==> (#[trigger] ps[j]).key != k,
    decreases ps.len(),
{
    if ps.len() > 0 {
        let d = ps.drop_last();
        lemma_key_position(d, k);
        assert forall|i: int| 0 <= i < d.len() implies #[trigger] d[i] == ps[i] by {}
        if ps.last().key == k {
            assert(ps[ps.len() - 1].key == k);
        } else {
            assert(ps[ps.len() - 1].key != k);
            match key_position(d, k) {
                None => {
                    assert forall|i: int| 0 <= i < ps.len() implies (#[trigger] ps[i]).key != k by {
                        if i < d.len() {
                            assert(d[i] == ps[i]);
                        }
                    }
                },
                Some(i) => {
                    assert(d[i] == ps[i]);
                    assert forall|j: int| i < j < ps.len() implies (#[trigger] ps[j]).key != k by {
                        if j < d.len() {
                            assert(d[j] == ps[j]);
                        }
                    }
                },
            }
        }
    }
}

proof fn lemma_char_cast(a: char, b: char)
    requires
        a as u32 == b as u32,
    ensures
        a == b,
{
}

proof fn lemma_spells_same(a: Seq<char>, u: Seq<int>, b: Seq<char>, w: Seq<int>)
    requires
        spells(a, u),
        spells(b, w),
    ensures
        a == b <==> u == w,
{
    if a == b {
        assert forall|k: int| 0 <= k < u.len() implies u[k] == w[k] by {
            assert(a[k] as u32 == u[k]);
            assert(b[k] as u32 == w[k]);
        }
        assert(u =~= w);
    }
    if u == w {
        assert forall|k: int| 0 <= k < a.len() implies a[k] == b[k] by {
            assert(a[k] as u32 == u[k]);
            assert(b[k] as u32 == w[k]);
            lemma_char_cast(a[k], b[k]);
        }
        assert(a =~= b);
    }
}

fn find_key(ps: &Vec<(String, u32)>, key: &String) -> (r: Option<usize>)
    ensures
        r matches Some(i) ==> i < ps@.len() && ps@[i as int].0@ == key@
            && forall|j: int| i < j < ps@.len() ==> (#[trigger] ps@[j]).0@ != key@,
        r is None ==> forall|j: int| 0 <= j < ps@.len() ==> (#[trigger] ps@[j]).0@ != key@,
{
    let mut j: usize = ps.len();
    while j > 0
        invariant
            j <= ps@.len(),
            forall|i: int| j <= i < ps@.len() ==> (#[trigger] ps@[i]).0@ != key@,
        decreases j,
    {
        if ps[j - 1].0 == *key {
            return Some(j - 1);
        }
        j = j - 1;
    }
    None
}

proof fn lemma_params_err(d: Seq<u8>, p: nat, j: nat, k: nat)
    requires
        j <= k,
        params_at(d, p, j) is Err,
    ensures
        params_at(d, p, k) == params_at(d, p, j),
    decreases k - j,
{
    if j < k {
        lemma_params_err(d, p, j, (k - 1) as nat);
    }
}

pub open spec fn params_match(ps: Seq<(String, u32)>, v: Seq<ParamView>) -> bool {
    &&& ps.len() == v.len()
    &&& forall|i: int| 0 <= i < v.len() ==> spells((#[trigger] ps[i]).0@, v[i].key) && ps[i].1 as int == v[i].value
}

fn read_params(data: &[u8], seek: &mut usize, k: usize) -> (r: Result<Vec<(String, u32)>, DecodeError>)
    ensures
        match params_at(data@, *old(seek) as nat, k as nat) {
            Ok((v, q)) => r matches Ok(w) && params_match(w@, v) && *final(seek) == q,
            Err(e) => r == Err::<Vec<(String, u32)>, DecodeError>(e),
        },
{
    let ghost start = *seek as nat;
    let mut out: Vec<(String, u32)> = Vec::new();
    for i in 0..k
        invariant
            start == *old(seek) as nat,
            params_at(data@, start, i as nat) matches Ok((v, q)) && params_match(out@, v) && q == *seek as nat,
    {
        let ghost q0 = *seek as nat;
        let key = match read_short_wide(data, seek) {
            Ok(s) => s,
            Err(e) => {
                proof {
                    lemma_params_err(data@, start, (i + 1) as nat, k as nat);
                }
                return Err(e);
            },
        };
        let value = match read_uint(data, seek) {
            Ok(v) => v,
            Err(e) => {
                proof {
                    lemma_params_err(data@, start, (i + 1) as nat, k as nat);
                }
                return Err(e);
            },
        };
        let ghost v = params_at(data@, start, i as nat)->Ok_0.0;
        let ghost pv = ParamView { key: short_wide_at(data@, q0)->Ok_0.0, value: value as int };
        proof {
            lemma_key_position(v, pv.key);
        }
        match find_key(&out, &key) {
            Some(j) => {
                proof {
                    lemma_spells_same(out@[j as int].0@, v[j as int].key, key@, pv.key);
                    assert forall|m: int| j < m < v.len() implies (#[trigger] v[m]).key != pv.key by {
                        lemma_spells_same(out@[m].0@, v[m].key, key@, pv.key);
                    }
                }
                out.set(j, (key, value));
            },
            None => {
                proof {
                    assert forall|m: int| 0 <= m < v.len() implies (#[trigger] v[m]).key != pv.key by {
                        lemma_spells_same(out@[m].0@, v[m].key, key@, pv.key);
                    }
                }
                out.push((key, value));
            },
        }
    }
    Ok(out)
}

pub ghost struct TgChannelView {
    pub id: int,
    pub settings: Seq<u8>,
    pub name: Seq<int>,
    pub params: Seq<ParamView>,
}

/// One channel at `p`: its id as an unsigned short, eight setting bytes
/// (bank, program, volume, balance, chorus, reverb, phaser, tremolo), its
/// name, and a count of parameters as an unsigned short, then the parameters.
pub open spec fn tg_channel_at(d: Seq<u8>, p: nat) -> Result<(TgChannelView, nat), DecodeError> {
    match ushort_at(d, p) {
        Err(e) => Err(e),
        Ok((id, p1)) => match byte_at(d, p1) {
            Err(e) => Err(e),
            Ok((bank, p2)) => match byte_at(d, p2) {
                Err(e) => Err(e),
                Ok((program, p3)) => match byte_at(d, p3) {
                    Err(e) => Err(e),
                    Ok((volume, p4)) => match byte_at(d, p4) {
                        Err(e) => Err(e),
                        Ok((balance, p5)) => match byte_at(d, p5) {
                            Err(e) => Err(e),
                            Ok((chorus, p6)) => match byte_at(d, p6) {
                                Err(e) => Err(e),
                                Ok((reverb, p7)) => match byte_at(d, p7) {
                                    Err(e) => Err(e),
                                    Ok((phaser, p8)) => match byte_at(d, p8) {
                                        Err(e) => Err(e),
                                        Ok((tremolo, p9)) => match short_wide_at(d, p9) {
                                            Err(e) => Err(e),
                                            Ok((cname, p10)) => match ushort_at(d, p10) {
                                                Err(e) => Err(e),
                                                Ok((count, p11)) => match params_at(d, p11, count as nat) {
                                                    Err(e) => Err(e),
                                                    Ok((params, p12)) => Ok((TgChannelView { id, settings: seq![bank, program, volume, balance, chorus, reverb, phaser, tremolo], name: cname, params }, p12)),
                                                },
                                            },
                                        },
                                    },
                                },
                            },
                        },
                    },
                },
            },
        },
    }
}

pub open spec fn tg_channel_matches(c: MidiChannel, v: TgChannelView) -> bool {
    &&& c.channel as int == v.id
    &&& v.settings.len() == 8
    &&& c.bank as int == v.settings[0] as int
    &&& c.program as int == v.settings[1] as int
    &&& c.volume as int == v.settings[2] as int
    &&& c.balance as int == v.settings[3] as int
    &&& c.chorus as int == v.settings[4] as int
    &&& c.reverb as int == v.settings[5] as int
    &&& c.phaser as int == v.settings[6] as int
    &&& c.tremolo as int == v.settings[7] as int
    &&& spells(c.name@, v.name)
    &&& params_match(c.parameters@, v.params)
}

fn read_tg_channel(data: &[u8], seek: &mut usize) -> (r: Result<MidiChannel, DecodeError>)
    ensures
        match tg_channel_at(data@, *old(seek) as nat) {
            Ok((v, q)) => r matches Ok(c) && tg_channel_matches(c, v) && *final(seek) == q,
            Err(e) => r == Err::<MidiChannel, DecodeError>(e),
        },
{
    let id = read_ushort(data, seek)?;
    let bank = read_byte(data, seek)?;
    let program = read_byte(data, seek)?;
    let volume = read_byte(data, seek)?;
    let balance = read_byte(data, seek)?;
    let chorus = read_byte(data, seek)?;
    let reverb = read_byte(data, seek)?;
    let phaser = read_byte(data, seek)?;
    let tremolo = read_byte(data, seek)?;
    let name = read_short_wide(data, seek)?;
    let count = read_ushort(data, seek)?;
    let parameters = read_params(data, seek, count as usize)?;
    Ok(MidiChannel {
        channel: id as i32,
        bank: bank as i32,
        program: program as i32,
        volume: volume as i32,
        balance: balance as i32,
        chorus: chorus as i32,
        reverb: reverb as i32,
        phaser: phaser as i32,
        tremolo: tremolo as i32,
        name,
        parameters,
    })
}

/// The first `k` channels at `p`.
pub open spec fn tg_channels_at(d: Seq<u8>, p: nat, k: nat) -> Result<(Seq<TgChannelView>, nat), DecodeError>
    decreases k,
{
    if k == 0 {
        Ok((Seq::empty(), p))
    } else {
        match tg_channels_at(d, p, (k - 1) as nat) {
            Err(e) => Err(e),
            Ok((cs, q)) => match tg_channel_at(d, q) {
                Err(e) => Err(e),
                Ok((c, r)) => Ok((cs.push(c), r)),
            },
        }
    }
}

proof fn lemma_tg_channels_err(d: Seq<u8>, p: nat, j: nat, k: nat)
    requires
        j <= k,
        tg_channels_at(d, p, j) is Err,
    ensures
        tg_channels_at(d, p, k) == tg_channels_at(d, p, j),
    decreases k - j,
{
    if j < k {
        lemma_tg_channels_err(d, p, j, (k - 1) as nat);
    }
}

pub open spec fn tg_channels_match(cs: Seq<MidiChannel>, v: Seq<TgChannelView>) -> bool {
    &&& cs.len() == v.len()
    &&& forall|i: int| 0 <= i < v.len() ==> tg_channel_matches(#[trigger] cs[i], v[i])
}

fn read_tg_channels(data: &[u8], seek: &mut usize, k: usize) -> (r: Result<Vec<MidiChannel>, DecodeError>)
    ensures
        match tg_channels_at(data@, *old(seek) as nat, k as nat) {
            Ok((v, q)) => r matches Ok(w) && tg_channels_match(w@, v) && *final(seek) == q,
            Err(e) => r == Err::<Vec<MidiChannel>, DecodeError>(e),
        },
{
    let ghost start = *seek as nat;
    let mut out: Vec<MidiChannel> = Vec::new();
    for i in 0..k
        invariant
            start == *old(seek) as nat,
            tg_channels_at(data@, start, i as nat) matches Ok((v, q)) && tg_channels_match(out@, v) && q == *seek as nat,
    {
        let c = match read_tg_channel(data, seek) {
            Ok(c) => c,
            Err(e) => {
                proof {
                    lemma_tg_channels_err(data@, start, (i + 1) as nat, k as nat);
                }
                return Err(e);
            },
        };
        out.push(c);
    }
    Ok(out)
}

pub ghost struct TgView {
    pub version: Seq<int>,
    pub name: Seq<int>,
    pub artist: Seq<int>,
    pub album: Seq<int>,
    pub author: Seq<int>,
    pub date: Seq<int>,
    pub copyright: Seq<int>,
    pub writer: Seq<int>,
    pub transcriber: Seq<int>,
    pub comments: Seq<int>,
    pub channels: Seq<TgChannelView>,
}

/// A TuxGuitar document: version, name, artist, album, author, date,
/// copyright, writer and transcriber strings (each with its length in code
/// units as one byte), comments (with their length in bytes as an integer,
/// which must be even), the channels (count as one byte), then the counts of
/// measure headers and tracks, one byte each. The header and track records
/// that follow the counts are left unread: the song information and the
/// channels are what this reader delivers.
pub open spec fn tg_at(d: Seq<u8>) -> Result<(TgView, nat), DecodeError> {
    match short_wide_at(d, 0) {
        Err(e) => Err(e),
        Ok((version, p1)) => match short_wide_at(d, p1) {
            Err(e) => Err(e),
            Ok((name, p2)) => match short_wide_at(d, p2) {
                Err(e) => Err(e),
                Ok((artist, p3)) => match short_wide_at(d, p3) {
                    Err(e) => Err(e),
                    Ok((album, p4)) => match short_wide_at(d, p4) {
                        Err(e) => Err(e),
                        Ok((author, p5)) => match short_wide_at(d, p5) {
                            Err(e) => Err(e),
                            Ok((date, p6)) => match short_wide_at(d, p6) {
                                Err(e) => Err(e),
                                Ok((copyright, p7)) => match short_wide_at(d, p7) {
                                    Err(e) => Err(e),
                                    Ok((writer, p8)) => match short_wide_at(d, p8) {
                                        Err(e) => Err(e),
                                        Ok((transcriber, p9)) => match int_at(d, p9) {
                                            Err(e) => Err(e),
                                            Ok((cn, p10)) => if cn < 0 || cn % 2 != 0 {
                                                Err(DecodeError::Malformed)
                                            } else {
                                                match wide_at(d, p10, cn as nat) {
                                                    Err(e) => Err(e),
                                                    Ok((comments, p12)) => match byte_at(d, p12) {
                                                        Err(e) => Err(e),
                                                        Ok((ccount, p13)) => match tg_channels_at(d, p13, ccount as nat) {
                                                            Err(e) => Err(e),
                                                            Ok((channels, p14)) => match byte_at(d, p14) {
                                                                Err(e) => Err(e),
                                                                Ok((hcount, p15)) => match byte_at(d, p15) {
                                                                    Err(e) => Err(e),
                                                                    Ok((tcount, p16)) => Ok((TgView { version, name, artist, album, author, date, copyright, writer, transcriber, comments, channels }, p16)),
                                                                },
                                                            },
                                                        },
                                                    },
                                                }
                                            },
                                        },
                                    },
                                },
                            },
                        },
                    },
                },
            },
        },
    }
}

/// Whether `new` is `old` with what `v` holds written in: a text field only
/// when it is not empty, and the channels appended to those already there.
/// The version string is read past.
pub open spec fn tg_applied(old: Song, new: Song, v: TgView) -> bool {
    &&& if v.name.len() == 0 { new.name == old.name } else { spells(new.name@, v.name) }
    &&& if v.artist.len() == 0 { new.artist == old.artist } else { spells(new.artist@, v.artist) }
    &&& if v.album.len() == 0 { new.album == old.album } else { spells(new.album@, v.album) }
    &&& if v.author.len() == 0 { new.author == old.author } else { spells(new.author@, v.author) }
    &&& if v.date.len() == 0 { new.date == old.date } else { spells(new.date@, v.date) }
    &&& if v.copyright.len() == 0 { new.copyright == old.copyright } else { spells(new.copyright@, v.copyright) }
    &&& if v.writer.len() == 0 { new.writer == old.writer } else { spells(new.writer@, v.writer) }
    &&& if v.transcriber.len() == 0 { new.transcriber == old.transcriber } else { spells(new.transcriber@, v.transcriber) }
    &&& if v.comments.len() == 0 { new.comments == old.comments } else { spells(new.comments@, v.comments) }
    &&& new.channels@.len() == old.channels@.len() + v.channels.len()
    &&& new.channels@.subrange(0, old.channels@.len() as int) == old.channels@
    &&& tg_channels_match(new.channels@.subrange(old.channels@.len() as int, new.channels@.len() as int), v.channels)
    &&& new.version == old.version
    &&& new.subtitle == old.subtitle
    &&& new.words == old.words
    &&& new.instructions == old.instructions
    &&& new.notice == old.notice
    &&& new.tracks == old.tracks
    &&& new.measure_headers == old.measure_headers
    &&& new.lyrics == old.lyrics
    &&& new.tempo == old.tempo
    &&& new.key == old.key
}

/// The decoded parts of a TuxGuitar document.
struct TgData {
    name: String,
    artist: String,
    album: String,
    author: String,
    date: String,
    copyright: String,
    writer: String,
    transcriber: String,
    comments: String,
    channels: Vec<MidiChannel>,
}

spec fn tg_data_matches(t: TgData, v: TgView) -> bool {
    &&& spells(t.name@, v.name)
    &&& spells(t.artist@, v.artist)
    &&& spells(t.album@, v.album)
    &&& spells(t.author@, v.author)
    &&& spells(t.date@, v.date)
    &&& spells(t.copyright@, v.copyright)
    &&& spells(t.writer@, v.writer)
    &&& spells(t.transcriber@, v.transcriber)
    &&& spells(t.comments@, v.comments)
    &&& tg_channels_match(t.channels@, v.channels)
}

fn read_tg(data: &Vec<u8>) -> (r: Result<TgData, DecodeError>)
    ensures
        match tg_at(data@) {
            Ok((v, _)) => r matches Ok(t) && tg_data_matches(t, v),
            Err(e) => r == Err::<TgData, DecodeError>(e),
        },
{
    let data = data.as_slice();
    let mut seek: usize = 0;
    read_short_wide(data, &mut seek)?;
    let name = read_short_wide(data, &mut seek)?;
    let artist = read_short_wide(data, &mut seek)?;
    let album = read_short_wide(data, &mut seek)?;
    let author = read_short_wide(data, &mut seek)?;
    let date = read_short_wide(data, &mut seek)?;
    let copyright = read_short_wide(data, &mut seek)?;
    let writer = read_short_wide(data, &mut seek)?;
    let transcriber = read_short_wide(data, &mut seek)?;
    let cn = read_int(data, &mut seek)?;
    if cn < 0 || cn % 2 != 0 {
        return Err(DecodeError::Malformed);
    }
    let comments = read_wide(data, &mut seek, cn as usize)?;
    let ccount = read_byte(data, &mut seek)?;
    let channels = read_tg_channels(data, &mut seek, ccount as usize)?;
    read_byte(data, &mut seek)?;
    read_byte(data, &mut seek)?;
    Ok(TgData { name, artist, album, author, date, copyright, writer, transcriber, comments, channels })
}

impl Song {
    fn apply_tg(&mut self, t: TgData, v: Ghost<TgView>)
        requires
            tg_data_matches(t, v@),
        ensures
            tg_applied(*old(self), *final(self), v@),
    {
        let TgData { name, artist, album, author, date, copyright, writer, transcriber, comments, channels } = t;
        if !name.as_str().is_empty() {
            self.name = name;
        }
        if !artist.as_str().is_empty() {
            self.artist = artist;
        }
        if !album.as_str().is_empty() {
            self.album = album;
        }
        if !author.as_str().is_empty() {
            self.author = author;
        }
        if !date.as_str().is_empty() {
            self.date = date;
        }
        if !copyright.as_str().is_empty() {
            self.copyright = copyright;
        }
        if !writer.as_str().is_empty() {
            self.writer = writer;
        }
        if !transcriber.as_str().is_empty() {
            self.transcriber = transcriber;
        }
        if !comments.as_str().is_empty() {
            self.comments = comments;
        }
        let ghost before = self.channels@;
        let mut channels = channels;
        let ghost added = channels@;
        self.channels.append(&mut channels);
        proof {
            assert(self.channels@.subrange(0, before.len() as int) =~= before);
            assert(self.channels@.subrange(before.len() as int, self.channels@.len() as int) =~= added);
        }
    }

    /// Reads a TuxGuitar document into this song; see `tg_at` for the layout.
    pub fn tg_read_data(&mut self, data: &Vec<u8>) -> (r: Result<(), DecodeError>)
        ensures
            match tg_at(data@) {
                Ok((v, _)) => r is Ok && tg_applied(*old(self), *final(self), v),
                Err(e) => r == Err::<(), DecodeError>(e) && *final(self) == *old(self),
            },
    {
        let t = read_tg(data)?;
        let ghost v = tg_at(data@)->Ok_0.0;
        self.apply_tg(t, Ghost(v));
        Ok(())
    }
}

} // verus!
