use cranko::csproj::{
    assembly_version, extract_braced_text, package_code, replace_vdproj_text, scan_csproj,
    vdproj_guid, CsDirFiles, CsProjLoader,
};
use cranko::config::ProjectConfiguration;
use cranko::graph::ProjectGraphBuilder;
use cranko::errors::Error;
use cranko::repository::RepoPath;

fn s(x: &str) -> String {
    x.to_owned()
}

#[test]
fn braced_text() {
    assert_eq!(
        extract_braced_text("\"OutputProjectGuid\" = \"8:{733C84E7-58F2-4E09-AC82-58AFD7E7BDD3}\"")
            .unwrap(),
        "{733C84E7-58F2-4E09-AC82-58AFD7E7BDD3}"
    );
    assert!(matches!(extract_braced_text("} {"), Err(Error::BracedText(_))));
    assert!(matches!(extract_braced_text("none"), Err(Error::BracedText(_))));
}

#[test]
fn vdproj_text_replacement() {
    assert_eq!(
        replace_vdproj_text("        \"ProductVersion\" = \"8:6.0.13\"", "7.1.0").unwrap(),
        "        \"ProductVersion\" = \"8:7.1.0\""
    );
    assert!(matches!(
        replace_vdproj_text("no colon here \"", "x"),
        Err(Error::VdprojSyntax(_))
    ));
}

#[test]
fn assembly_info_version() {
    let lines = vec![
        s("using System.Reflection;"),
        s("[assembly: AssemblyVersion(\"1.2.3.4\")]"),
    ];
    let v = assembly_version(&lines).unwrap().unwrap();
    assert_eq!(v.to_string(), "1.2.3.4");
    assert!(assembly_version(&vec![s("nothing")]).unwrap().is_none());
    assert!(matches!(
        assembly_version(&vec![s("[assembly: AssemblyVersion(\"1.2\")]")]),
        Err(Error::AssemblyVersionSyntax(_))
    ));
}

#[test]
fn vdproj_guids() {
    let one = vec![s("\"OutputProjectGuid\" = \"8:{ABC-DEF}\"")];
    assert_eq!(vdproj_guid(&one).unwrap().unwrap(), "{abc-def}");
    let two = vec![
        s("\"OutputProjectGuid\" = \"8:{AAA}\""),
        s("\"OutputProjectGuid\" = \"8:{BBB}\""),
    ];
    assert!(vdproj_guid(&two).unwrap().is_none());
}

#[test]
fn package_codes_are_upper_case_and_braced() {
    assert_eq!(
        package_code("0f8fad5b-d9cb-469f-a165-70867728950e"),
        "{0F8FAD5B-D9CB-469F-A165-70867728950E}"
    );
}

#[test]
fn csproj_xml_scanning() {
    let xml = br#"<?xml version="1.0"?>
<Project>
  <PropertyGroup>
    <ProjectGuid>{AB-CD}</ProjectGuid>
    <AssemblyName>My.Lib</AssemblyName>
    <CrankoInternalDepVersion>{EF-01}=manual:^1.0</CrankoInternalDepVersion>
  </PropertyGroup>
  <ItemGroup>
    <ProjectReference Include="..\Other\Other.csproj">
      <Project>{EF-01}</Project>
    </ProjectReference>
  </ItemGroup>
</Project>
"#;
    let info = scan_csproj(xml).unwrap();
    assert_eq!(info.guid.unwrap(), "{ab-cd}");
    assert_eq!(info.name.unwrap(), "My.Lib");
    assert_eq!(info.dep_guids, vec![s("{ef-01}")]);
    assert_eq!(info.dep_reqs, vec![(s("{ef-01}"), s("manual:^1.0"))]);
}

#[test]
fn csproj_index_items() {
    let mut loader = CsProjLoader::new();
    loader
        .process_index_item(&RepoPath::new(b"lib/lib.csproj"), &RepoPath::new(b"lib/"), &RepoPath::new(b"lib.csproj"))
        .unwrap();
    loader
        .process_index_item(
            &RepoPath::new(b"lib/Properties/AssemblyInfo.cs"),
            &RepoPath::new(b"lib/Properties/"),
            &RepoPath::new(b"AssemblyInfo.cs"),
        )
        .unwrap();
    loader
        .process_index_item(&RepoPath::new(b"setup/setup.vdproj"), &RepoPath::new(b"setup/"), &RepoPath::new(b"setup.vdproj"))
        .unwrap();
    let entries = loader.dir_entries();
    assert_eq!(entries.len(), 1);
    assert_eq!(entries[0].dir.as_repo_path().as_bytes(), b"lib/");
    assert!(entries[0].csproj.is_some());
    assert!(entries[0].assembly_info.is_some());
    assert_eq!(loader.vdproj_files().len(), 1);
}

fn one_project_loader() -> CsProjLoader {
    let mut loader = CsProjLoader::new();
    loader
        .process_index_item(&RepoPath::new(b"lib/lib.csproj"), &RepoPath::new(b"lib/"), &RepoPath::new(b"lib.csproj"))
        .unwrap();
    loader
        .process_index_item(
            &RepoPath::new(b"lib/Properties/AssemblyInfo.cs"),
            &RepoPath::new(b"lib/Properties/"),
            &RepoPath::new(b"AssemblyInfo.cs"),
        )
        .unwrap();
    loader
}

fn lib_files(dep: bool) -> CsDirFiles {
    let reference = if dep { "<ItemGroup><ProjectReference><Project>{99}</Project></ProjectReference></ItemGroup>" } else { "" };
    CsDirFiles {
        csproj_xml: format!(
            "<Project><PropertyGroup><ProjectGuid>{{AB}}</ProjectGuid><AssemblyName>Lib</AssemblyName></PropertyGroup>{}</Project>",
            reference
        )
        .into_bytes(),
        assembly_info: vec![s("[assembly: AssemblyVersion(\"1.2.3.4\")]")],
    }
}

#[test]
fn csproj_projects_are_completed() {
    let empty: Vec<(String, ProjectConfiguration)> = Vec::new();
    let mut graph = ProjectGraphBuilder::new();
    let pending = one_project_loader()
        .finalize(&mut graph, &empty, &vec![Some(lib_files(false))], &Vec::new())
        .unwrap();
    assert!(pending.is_empty());
    assert_eq!(graph.len(), 1);
    assert_eq!(graph.lookup(0).qnames, vec![s("Lib"), s("csproj")]);

    let mut graph = ProjectGraphBuilder::new();
    let res = one_project_loader().finalize(&mut graph, &empty, &vec![Some(lib_files(true))], &Vec::new());
    assert!(matches!(res, Err(Error::UnknownProjectGuid(n, g)) if n == "Lib" && g == "{99}"));

    let mut graph = ProjectGraphBuilder::new();
    let bad = CsDirFiles { csproj_xml: b"<Project><a></b></Project>".to_vec(), assembly_info: Vec::new() };
    let res = one_project_loader().finalize(&mut graph, &empty, &vec![Some(bad)], &Vec::new());
    assert!(matches!(res, Err(Error::XmlSyntax)));

    let mut graph = ProjectGraphBuilder::new();
    let pending = one_project_loader().finalize(&mut graph, &empty, &vec![None], &Vec::new()).unwrap();
    assert!(pending.is_empty());
    assert_eq!(graph.len(), 0);
}
