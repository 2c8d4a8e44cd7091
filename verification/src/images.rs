//! Which Docker images a server can run in.

use vstd::prelude::*;

use crate::config::{ServerConfig, ServerView};
use crate::numbers::{
    decimal, decimal_reads_back, decimal_text, lemma_decimal_is_digits, number, parse_u16_text,
    NumberError,
};
use crate::text::{
    chars_of, contains_char, contains_text, copy_texts, glue, glue3, lemma_pieces_append,
    lemma_pieces_plain, list_contains, lower_text, lowered, nonblank, nonblank_text, occurs_at, occurs_in, pieces, same_text, split_on, texts, trim, trimmed,
};

verus! {

/// Where images are pulled from.
#[derive(Debug, Clone, Copy, PartialEq, Eq, Structural)]
pub enum DockerRegistryRegion {
    Global,
    China,
}

/// The region that a setting names.
pub open spec fn named_region(value: Seq<char>) -> Option<DockerRegistryRegion> {
    let name = lowered(trimmed(value));
    if name == "cn"@ || name == "china"@ || name == "mainland-china"@ || name == "zh-cn"@ {
        Some(DockerRegistryRegion::China)
    } else if name == "global"@ || name == "dockerhub"@ || name == "docker-hub"@ || name == "us"@
        || name == "default"@ {
        Some(DockerRegistryRegion::Global)
    } else {
        None
    }
}

/// Reads the region that a setting names.
pub fn parse_registry_region(value: &str) -> (r: Option<DockerRegistryRegion>)
    ensures
        r == named_region(value@),
{
    let name = lower_text(trim(value));
    let name = name.as_str();
    if same_text(name, "cn") || same_text(name, "china") || same_text(name, "mainland-china")
        || same_text(name, "zh-cn") {
        Some(DockerRegistryRegion::China)
    } else if same_text(name, "global") || same_text(name, "dockerhub") || same_text(
        name,
        "docker-hub",
    ) || same_text(name, "us") || same_text(name, "default") {
        Some(DockerRegistryRegion::Global)
    } else {
        None
    }
}

/// Whether a time zone or locale is one of China.
pub open spec fn hints_at_china(value: Seq<char>) -> bool {
    let text = lowered(value);
    occurs_in(text, "asia/shanghai"@) || occurs_in(text, "asia/chongqing"@) || occurs_in(
        text,
        "asia/harbin"@,
    ) || occurs_in(text, "asia/urumqi"@) || occurs_in(text, "zh_cn"@) || occurs_in(text, "china"@)
}

/// Whether a time zone or locale is one of China.
pub fn contains_china_region_hint(value: &str) -> (r: bool)
    ensures
        r == hints_at_china(value@),
{
    let text = lower_text(value);
    let text = text.as_str();
    contains_text(text, "asia/shanghai") || contains_text(text, "asia/chongqing") || contains_text(
        text,
        "asia/harbin",
    ) || contains_text(text, "asia/urumqi") || contains_text(text, "zh_cn") || contains_text(
        text,
        "china",
    )
}

/// The region: the first one that a setting names, or China where a time zone
/// or locale hints at it.
pub open spec fn region_of(
    settings: Seq<Seq<char>>,
    hints: Seq<Seq<char>>,
) -> DockerRegistryRegion
    decreases settings.len(),
{
    if settings.len() > 0 {
        match named_region(settings[0]) {
            Some(region) => region,
            None => region_of(settings.drop_first(), hints),
        }
    } else if exists|i: int| 0 <= i < hints.len() && hints_at_china(#[trigger] hints[i]) {
        DockerRegistryRegion::China
    } else {
        DockerRegistryRegion::Global
    }
}

/// The region that the given settings, time zones and locales speak for.
pub fn docker_registry_region(settings: &Vec<String>, hints: &Vec<String>) -> (r:
    DockerRegistryRegion)
    ensures
        r == region_of(texts(settings@), texts(hints@)),
{
    let ghost all = texts(settings@);
    let ghost signs = texts(hints@);
    let mut i: usize = 0;
    assert(all.skip(0) =~= all);
    while i < settings.len()
        invariant
            i <= settings@.len(),
            all == texts(settings@),
            signs == texts(hints@),
            region_of(all, signs) == region_of(all.skip(i as int), signs),
        decreases settings@.len() - i,
    {
        assert(all.skip(i as int)[0] == settings@[i as int]@);
        assert(all.skip(i as int).drop_first() =~= all.skip(i + 1));
        if let Some(region) = parse_registry_region(settings[i].as_str()) {
            return region;
        }
        i = i + 1;
    }
    let mut k: usize = 0;
    while k < hints.len()
        invariant
            k <= hints@.len(),
            signs == texts(hints@),
            i == settings@.len(),
            all == texts(settings@),
            region_of(all, signs) == region_of(all.skip(i as int), signs),
            forall|j: int| 0 <= j < k ==> !hints_at_china(#[trigger] signs[j]),
        decreases hints@.len() - k,
    {
        assert(signs[k as int] == hints@[k as int]@);
        if contains_china_region_hint(hints[k].as_str()) {
            return DockerRegistryRegion::China;
        }
        k = k + 1;
    }
    DockerRegistryRegion::Global
}

/// The numbers among pieces of text, in order.
pub open spec fn numbers_among(list: Seq<Seq<char>>) -> Seq<nat>
    decreases list.len(),
{
    if list.len() == 0 {
        Seq::empty()
    } else {
        let head = numbers_among(list.drop_last());
        match number(list.last(), 10, u16::MAX as nat) {
            Ok(n) => head.push(n),
            Err(_) => head,
        }
    }
}

/// The text with dots in place of dashes.
pub open spec fn dotted(s: Seq<char>) -> Seq<char> {
    s.map_values(
        |c: char|
            if c == '-' {
                '.'
            } else {
                c
            },
    )
}

/// The Java version that a Minecraft version needs.
pub open spec fn java_major(version: Option<Seq<char>>) -> nat {
    match version {
        None => 21,
        Some(version) => {
            let parts = numbers_among(pieces(dotted(version), '.'));
            if parts.len() >= 2 && parts[0] == 1 && parts[1] <= 16 {
                8
            } else if parts.len() >= 2 && parts[0] == 1 && parts[1] == 17 {
                16
            } else if parts.len() >= 2 && parts[0] == 1 && parts[1] <= 20 {
                17
            } else {
                21
            }
        },
    }
}

fn dots_for_dashes(s: &str) -> (r: String)
    ensures
        r@ == dotted(s@),
{
    let chars = chars_of(s);
    let mut out = String::new();
    let mut i: usize = 0;
    while i < chars.len()
        invariant
            i <= chars@.len(),
            chars@ == s@,
            out@ == dotted(s@).take(i as int),
        decreases chars@.len() - i,
    {
        if chars[i] == '-' {
            out.push('.');
        } else {
            out.push(chars[i]);
        }
        assert(dotted(s@).take(i + 1) =~= dotted(s@).take(i as int).push(dotted(s@)[i as int]));
        i = i + 1;
    }
    assert(dotted(s@).take(i as int) =~= dotted(s@));
    out
}

/// The Java version that a Minecraft version needs.
pub fn minecraft_java_major(version: Option<&str>) -> (r: u16)
    ensures
        r == java_major(
            match version {
                Some(version) => Some(version@),
                None => None,
            },
        ),
{
    let version = match version {
        Some(version) => version,
        None => return 21,
    };
    let text = dots_for_dashes(version);
    let raw = split_on(text.as_str(), '.');
    let ghost all = texts(raw@);
    let mut parts: Vec<u16> = Vec::new();
    let mut i: usize = 0;
    assert(all.take(0).len() == 0);
    while i < raw.len()
        invariant
            i <= raw@.len(),
            all == texts(raw@),
            parts@.len() == numbers_among(all.take(i as int)).len(),
            forall|k: int|
                0 <= k < parts@.len() ==> #[trigger] parts@[k] as nat == numbers_among(
                    all.take(i as int),
                )[k],
        decreases raw@.len() - i,
    {
        assert(all.take(i + 1).drop_last() =~= all.take(i as int));
        assert(all[i as int] == raw@[i as int]@);
        if let Ok(n) = parse_u16_text(raw[i].as_str()) {
            parts.push(n);
        }
        i = i + 1;
    }
    assert(all.take(i as int) =~= all);
    if parts.len() >= 2 && parts[0] == 1 && parts[1] <= 16 {
        8
    } else if parts.len() >= 2 && parts[0] == 1 && parts[1] == 17 {
        16
    } else if parts.len() >= 2 && parts[0] == 1 && parts[1] <= 20 {
        17
    } else {
        21
    }
}

/// The image at a mirror of Docker Hub, unless it names a registry itself.
pub open spec fn mirror_of(image: Seq<char>) -> Option<Seq<char>> {
    let first = pieces(image, '/')[0];
    let has_namespace = image.contains('/');
    if has_namespace && (first.contains('.') || first.contains(':') || first == "localhost"@) {
        None
    } else {
        Some(
            "docker.m.daocloud.io/"@ + if has_namespace {
                image
            } else {
                "library/"@ + image
            },
        )
    }
}

/// The image at a mirror of Docker Hub.
pub fn docker_hub_mirror_image(image: &str) -> (r: Option<String>)
    ensures
        crate::text::opt_text(r) == mirror_of(image@),
{
    let has_namespace = contains_char(image, '/');
    let parts = split_on(image, '/');
    assert(texts(parts@)[0] == parts@[0]@);
    let first = parts[0].as_str();
    if has_namespace && (contains_char(first, '.') || contains_char(first, ':') || same_text(
        first,
        "localhost",
    )) {
        return None;
    }
    let repository = if has_namespace {
        image.to_owned()
    } else {
        glue("library/", image)
    };
    Some(glue("docker.m.daocloud.io/", repository.as_str()))
}

/// The list with the image behind it, unless it is there.
pub open spec fn with_image(list: Seq<Seq<char>>, image: Seq<char>) -> Seq<Seq<char>> {
    if list.contains(image) {
        list
    } else {
        list.push(image)
    }
}

/// Adds the image, unless it is there.
pub fn push_unique(candidates: &mut Vec<String>, image: String)
    ensures
        texts(final(candidates)@) == with_image(texts(old(candidates)@), image@),
{
    if !list_contains(candidates, image.as_str()) {
        candidates.push(image);
        assert(texts(candidates@) =~= texts(old(candidates)@).push(image@));
    }
}

/// The images that hold the Java version.
pub open spec fn java_images(major: nat) -> Seq<Seq<char>> {
    seq![
        "eclipse-temurin:"@ + decimal(major) + "-jre"@,
        "amazoncorretto:"@ + decimal(major),
        "bellsoft/liberica-openjdk-debian:"@ + decimal(major),
    ]
}

/// The list with the mirrors of the first `upto` images.
pub open spec fn with_mirrors(base: Seq<Seq<char>>, upto: int) -> Seq<Seq<char>>
    decreases upto,
{
    if upto <= 0 {
        Seq::empty()
    } else {
        let list = with_mirrors(base, upto - 1);
        match mirror_of(base[upto - 1]) {
            Some(mirror) => with_image(list, mirror),
            None => list,
        }
    }
}

/// The list with the first `upto` images behind it.
pub open spec fn with_images(list: Seq<Seq<char>>, base: Seq<Seq<char>>, upto: int) -> Seq<Seq<char>>
    decreases upto,
{
    if upto <= 0 {
        list
    } else {
        with_image(with_images(list, base, upto - 1), base[upto - 1])
    }
}

/// The images to try, in order: the chosen one, or the chosen candidates, or
/// those that hold the Java version that the server needs. In China mirrors
/// of these come first.
pub open spec fn candidates_of(server: ServerView, region: DockerRegistryRegion) -> Seq<Seq<char>> {
    let docker = server.runtime.docker;
    match nonblank(docker.image) {
        Some(image) => seq![image],
        None => if docker.image_candidates.len() > 0 {
            docker.image_candidates
        } else {
            let base = java_images(java_major(server.version));
            if region != DockerRegistryRegion::China {
                base
            } else {
                with_images(with_mirrors(base, base.len() as int), base, base.len() as int)
            }
        },
    }
}

/// The images to try in a region, in order.
pub fn image_candidates_for_region(server: &ServerConfig, region: DockerRegistryRegion) -> (r: Vec<
    String,
>)
    ensures
        texts(r@) == candidates_of(server@, region),
{
    let docker = &server.runtime.docker;
    if let Some(image) = nonblank_text(&docker.image) {
        let mut one: Vec<String> = Vec::new();
        one.push(image.to_owned());
        assert(texts(one@) =~= seq![image@]);
        return one;
    }
    if docker.image_candidates.len() > 0 {
        return copy_texts(&docker.image_candidates);
    }
    let version = match &server.version {
        Some(version) => Some(version.as_str()),
        None => None,
    };
    let major = decimal_text(minecraft_java_major(version) as u64);
    let mut base: Vec<String> = Vec::new();
    base.push(glue3("eclipse-temurin:", major.as_str(), "-jre"));
    base.push(glue("amazoncorretto:", major.as_str()));
    base.push(glue("bellsoft/liberica-openjdk-debian:", major.as_str()));
    let ghost all = java_images(java_major(server@.version));
    assert(texts(base@) =~= all);
    if region != DockerRegistryRegion::China {
        return base;
    }
    let mut candidates: Vec<String> = Vec::new();
    let mut i: usize = 0;
    assert(texts(candidates@) =~= Seq::<Seq<char>>::empty());
    while i < base.len()
        invariant
            i <= base@.len(),
            all == texts(base@),
            texts(candidates@) == with_mirrors(all, i as int),
        decreases base@.len() - i,
    {
        assert(all[i as int] == base@[i as int]@);
        if let Some(mirror) = docker_hub_mirror_image(base[i].as_str()) {
            push_unique(&mut candidates, mirror);
        }
        i = i + 1;
    }
    let ghost mirrors = texts(candidates@);
    let mut k: usize = 0;
    while k < base.len()
        invariant
            k <= base@.len(),
            all == texts(base@),
            texts(candidates@) == with_images(mirrors, all, k as int),
        decreases base@.len() - k,
    {
        assert(all[k as int] == base@[k as int]@);
        push_unique(&mut candidates, base[k].clone());
        k = k + 1;
    }
    candidates
}

proof fn lemma_plain_number(n: u16)
    ensures
        !decimal(n as nat).contains('.'),
        !decimal(n as nat).contains('/'),
        dotted(decimal(n as nat)) == decimal(n as nat),
        number(decimal(n as nat), 10, u16::MAX as nat) == Ok::<nat, NumberError>(n as nat),
{
    let digits = decimal(n as nat);
    lemma_decimal_is_digits(n as nat);
    decimal_reads_back(n as nat, u16::MAX as nat);
    assert forall|i: int| 0 <= i < digits.len() implies digits[i] != '.' && digits[i] != '-'
        && digits[i] != '/' by {
        assert('0' <= digits[i] <= '9');
    }
    assert(dotted(digits) =~= digits);
}

proof fn lemma_numbers_of_release(minor: u16, patch: u16)
    ensures
        numbers_among(pieces(seq!['1', '.'] + decimal(minor as nat), '.')) == seq![
            1nat,
            minor as nat,
        ],
        numbers_among(pieces(seq!['1', '.'] + decimal(minor as nat) + seq!['.'] + decimal(
            patch as nat,
        ), '.')) == seq![1nat, minor as nat, patch as nat],
{
    let one = seq!['1'];
    let second = decimal(minor as nat);
    let third = decimal(patch as nat);
    lemma_plain_number(minor);
    lemma_plain_number(patch);
    lemma_plain_number(1);
    assert(decimal(1) =~= one);
    lemma_pieces_plain(one, '.');
    lemma_pieces_append(one, second, '.');
    lemma_pieces_append(one + seq!['.'] + second, third, '.');
    assert(seq!['1', '.'] + second =~= one + seq!['.'] + second);
    let first = seq![one];
    let two = first.push(second);
    let three = two.push(third);
    assert(first.drop_last() =~= Seq::<Seq<char>>::empty());
    assert(numbers_among(Seq::empty()) =~= Seq::<nat>::empty());
    assert(first.last() == decimal(1));
    assert(two.drop_last() =~= first);
    assert(three.drop_last() =~= two);
    assert(numbers_among(first) =~= seq![1nat]);
    assert(numbers_among(two) =~= seq![1nat, minor as nat]);
    assert(numbers_among(three) =~= seq![1nat, minor as nat, patch as nat]);
}

/// A release `1.x` runs on Java 8 up to 1.16, on 16 for 1.17, on 17 from 1.18 to
/// 1.20 and on 21 from there, whatever its patch; and on 21 where it is not
/// known.
pub proof fn java_fits_the_release(minor: u16, patch: u16)
    ensures
        ({
            let java: nat = if minor <= 16 {
                8
            } else if minor == 17 {
                16
            } else if minor <= 20 {
                17
            } else {
                21
            };
            let release = seq!['1', '.'] + decimal(minor as nat);
            &&& java_major(Some(release)) == java
            &&& java_major(Some(release + seq!['.'] + decimal(patch as nat))) == java
            &&& java_major(Some(release + seq!['-'] + decimal(patch as nat))) == java
            &&& java_major(None) == 21
        }),
{
    let release = seq!['1', '.'] + decimal(minor as nat);
    let third = decimal(patch as nat);
    lemma_numbers_of_release(minor, patch);
    lemma_plain_number(minor);
    lemma_plain_number(patch);
    lemma_dotted(seq!['1', '.'], decimal(minor as nat));
    lemma_dotted(release, seq!['.']);
    lemma_dotted(release, seq!['-']);
    lemma_dotted(release + seq!['.'], third);
    lemma_dotted(release + seq!['-'], third);
    assert(dotted(seq!['1', '.']) =~= seq!['1', '.']);
    assert(dotted(seq!['.']) =~= seq!['.']);
    assert(dotted(seq!['-']) =~= seq!['.']);
}

proof fn lemma_dotted(a: Seq<char>, b: Seq<char>)
    ensures
        dotted(a + b) == dotted(a) + dotted(b),
{
    assert(dotted(a + b) =~= dotted(a) + dotted(b));
}

/// The first setting that names a region decides; where none does, the region is
/// China exactly where something hints at it.
pub proof fn first_named_region_decides(
    setting: Seq<char>,
    settings: Seq<Seq<char>>,
    hints: Seq<Seq<char>>,
)
    ensures
        region_of(seq![setting] + settings, hints) == match named_region(setting) {
            Some(region) => region,
            None => region_of(settings, hints),
        },
        region_of(Seq::empty(), hints) == DockerRegistryRegion::China <==> exists|i: int|
            0 <= i < hints.len() && hints_at_china(#[trigger] hints[i]),
{
    assert((seq![setting] + settings).drop_first() =~= settings);
}

/// The names of the regions, in any case and with white space around them.
pub proof fn regions_go_by_names(value: Seq<char>)
    ensures
        ({
            let name = lowered(trimmed(value));
            let china = name == "cn"@ || name == "china"@ || name == "mainland-china"@ || name
                == "zh-cn"@;
            let global = name == "global"@ || name == "dockerhub"@ || name == "docker-hub"@ || name
                == "us"@ || name == "default"@;
            &&& china ==> named_region(value) == Some(DockerRegistryRegion::China)
            &&& global && !china ==> named_region(value) == Some(DockerRegistryRegion::Global)
            &&& !china && !global ==> named_region(value) is None
        }),
{
}

/// A text hints at China where a city or the language of China occurs in it, in
/// any case.
pub proof fn hints_are_found(a: Seq<char>, b: Seq<char>)
    ensures
        hints_at_china(a + "Asia/Shanghai"@ + b),
        hints_at_china(a + "zh_CN"@ + b),
{
    reveal_strlit("Asia/Shanghai");
    reveal_strlit("asia/shanghai");
    reveal_strlit("zh_CN");
    reveal_strlit("zh_cn");
    lemma_lowered_occurs(a, "Asia/Shanghai"@, b);
    lemma_lowered_occurs(a, "zh_CN"@, b);
    assert(lowered("Asia/Shanghai"@) =~= "asia/shanghai"@);
    assert(lowered("zh_CN"@) =~= "zh_cn"@);
}

proof fn lemma_lowered_occurs(a: Seq<char>, word: Seq<char>, b: Seq<char>)
    ensures
        occurs_in(lowered(a + word + b), lowered(word)),
{
    let text = lowered(a + word + b);
    let n = a.len() as int;
    assert(text.subrange(n, n + word.len()) =~= lowered(word));
    assert(occurs_at(text, lowered(word), n));
}

/// An image of the library, and one of a maker, is mirrored; one from a place of
/// its own is not.
pub proof fn images_are_mirrored(name: Seq<char>, maker: Seq<char>)
    requires
        !name.contains('/'),
        !maker.contains('/'),
    ensures
        mirror_of(name) == Some("docker.m.daocloud.io/library/"@ + name),
        !maker.contains('.') && !maker.contains(':') && maker != "localhost"@ ==> mirror_of(
            maker + seq!['/'] + name,
        ) == Some("docker.m.daocloud.io/"@ + (maker + seq!['/'] + name)),
        maker.contains('.') || maker.contains(':') || maker == "localhost"@ ==> mirror_of(
            maker + seq!['/'] + name,
        ) is None,
{
    let made = maker + seq!['/'] + name;
    reveal_strlit("docker.m.daocloud.io/library/");
    reveal_strlit("docker.m.daocloud.io/");
    reveal_strlit("library/");
    lemma_pieces_plain(maker, '/');
    lemma_pieces_append(maker, name, '/');
    assert(made[maker.len() as int] == '/');
    assert(made.contains('/'));
    assert("docker.m.daocloud.io/"@ + ("library/"@ + name) =~= "docker.m.daocloud.io/library/"@
        + name);
}

/// An image that was chosen is the only one to be tried, then a list that was
/// chosen; else it is the images of Java that fit the release.
pub proof fn chosen_images_are_tried(server: ServerView, chosen: Seq<char>)
    ensures
        forall|region: DockerRegistryRegion|
            server.runtime.docker.image == Some(chosen) && trimmed(chosen).len() > 0
                ==> #[trigger] candidates_of(server, region) == seq![trimmed(chosen)],
        forall|region: DockerRegistryRegion|
            server.runtime.docker.image is None && server.runtime.docker.image_candidates.len() > 0
                ==> #[trigger] candidates_of(server, region)
                == server.runtime.docker.image_candidates,
        server.runtime.docker.image is None && server.runtime.docker.image_candidates.len() == 0
            ==> candidates_of(server, DockerRegistryRegion::Global) == seq![
            "eclipse-temurin:"@ + decimal(java_major(server.version)) + "-jre"@,
            "amazoncorretto:"@ + decimal(java_major(server.version)),
            "bellsoft/liberica-openjdk-debian:"@ + decimal(java_major(server.version)),
        ],
{
}

proof fn lemma_with_image(list: Seq<Seq<char>>, image: Seq<char>)
    ensures
        with_image(list, image).contains(image),
        forall|x: Seq<char>| list.contains(x) ==> #[trigger] with_image(list, image).contains(x),
        list.len() > 0 ==> with_image(list, image).len() > 0 && with_image(list, image)[0]
            == list[0],
{
    if !list.contains(image) {
        let longer = list.push(image);
        assert(longer[list.len() as int] == image);
        assert forall|x: Seq<char>| list.contains(x) implies longer.contains(x) by {
            let i = list.index_of(x);
            assert(longer[i] == x);
        }
    }
}

/// In China the mirrors are tried first, and each image itself after them.
pub proof fn mirrors_are_tried_first(server: ServerView)
    requires
        server.runtime.docker.image is None,
        server.runtime.docker.image_candidates.len() == 0,
    ensures
        ({
            let near = candidates_of(server, DockerRegistryRegion::China);
            let far = candidates_of(server, DockerRegistryRegion::Global);
            let first = mirror_of(far[0]);
            &&& forall|i: int| 0 <= i < far.len() ==> near.contains(#[trigger] far[i])
            &&& forall|i: int|
                0 <= i < far.len() ==> (mirror_of(#[trigger] far[i]) matches Some(mirror)
                    ==> near.contains(mirror))
            &&& first is Some ==> near.len() > 0 && near[0] == first->0
        }),
{
    let base = java_images(java_major(server.version));
    let m1 = with_mirrors(base, 1);
    let m2 = with_mirrors(base, 2);
    let m3 = with_mirrors(base, 3);
    let i1 = with_images(m3, base, 1);
    let i2 = with_images(m3, base, 2);
    let i3 = with_images(m3, base, 3);
    assert(with_mirrors(base, 0) =~= Seq::<Seq<char>>::empty());
    assert(with_images(m3, base, 0) == m3);
    if let Some(mirror) = mirror_of(base[0]) {
        lemma_with_image(Seq::empty(), mirror);
        assert(m1 == with_image(Seq::empty(), mirror));
        assert(m1[0] == mirror);
    }
    if let Some(mirror) = mirror_of(base[1]) {
        lemma_with_image(m1, mirror);
    }
    if let Some(mirror) = mirror_of(base[2]) {
        lemma_with_image(m2, mirror);
    }
    assert(i1 == with_image(m3, base[0]));
    assert(i2 == with_image(i1, base[1]));
    assert(i3 == with_image(i2, base[2]));
    lemma_with_image(m3, base[0]);
    lemma_with_image(i1, base[1]);
    lemma_with_image(i2, base[2]);
    assert(candidates_of(server, DockerRegistryRegion::China) == i3);
    assert forall|i: int| 0 <= i < base.len() implies i3.contains(#[trigger] base[i]) && (mirror_of(
        base[i],
    ) matches Some(mirror) ==> i3.contains(mirror)) by {
        if i == 0 {
            assert(i1.contains(base[0]));
            assert(i2.contains(base[0]));
            if let Some(mirror) = mirror_of(base[0]) {
                assert(m2.contains(mirror));
                assert(m3.contains(mirror));
                assert(i1.contains(mirror));
                assert(i2.contains(mirror));
            }
        } else if i == 1 {
            assert(i2.contains(base[1]));
            if let Some(mirror) = mirror_of(base[1]) {
                assert(m2.contains(mirror));
                assert(m3.contains(mirror));
                assert(i1.contains(mirror));
                assert(i2.contains(mirror));
            }
        } else {
            if let Some(mirror) = mirror_of(base[2]) {
                assert(m3.contains(mirror));
                assert(i1.contains(mirror));
                assert(i2.contains(mirror));
            }
        }
    }
}

} // verus!
